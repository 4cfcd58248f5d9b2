use vstd::prelude::*;

use crate::desktop::{DesktopEntry, EntryView};
use crate::slug::filename_of;
use crate::text::{chars_of, is_whitespace, is_ws, range_eq, string_of, trim, trim_range};

verus! {

/// Why no entry was selected.
pub enum SelectError {
    /// The token is no index into the list, and no entry has it as its
    /// filename or as its name.
    NotFound { token: String },
}

impl SelectError {
    pub open spec fn token_view(&self) -> Seq<char> {
        match self {
            SelectError::NotFound { token } => token@,
        }
    }

    /// The token that selected nothing.
    pub fn token(&self) -> (r: &str)
        ensures
            r@ == self.token_view(),
    {
        match self {
            SelectError::NotFound { token } => token.as_str(),
        }
    }
}

/// Brackets, braces, parentheses and whitespace, which may wrap an index.
pub open spec fn is_wrap(c: char) -> bool {
    is_ws(c) || c == '(' || c == ')' || c == '{' || c == '}' || c == '[' || c == ']'
}

pub open spec fn strip_start(s: Seq<char>) -> Seq<char>
    decreases s.len(),
{
    if s.len() > 0 && is_wrap(s[0]) {
        strip_start(s.drop_first())
    } else {
        s
    }
}

pub open spec fn strip_end(s: Seq<char>) -> Seq<char>
    decreases s.len(),
{
    if s.len() > 0 && is_wrap(s.last()) {
        strip_end(s.drop_last())
    } else {
        s
    }
}

/// `s` without the wrapping characters at either end.
pub open spec fn strip(s: Seq<char>) -> Seq<char> {
    strip_end(strip_start(s))
}

pub open spec fn is_digit(c: char) -> bool {
    '0' <= c && c <= '9'
}

/// `s` is a non-empty run of ASCII digits.
pub open spec fn all_digits(s: Seq<char>) -> bool {
    s.len() > 0 && forall|i: int| 0 <= i < s.len() ==> is_digit(#[trigger] s[i])
}

/// The number that the digits `s` write in base ten.
pub open spec fn digits_value(s: Seq<char>) -> nat
    decreases s.len(),
{
    if s.len() == 0 {
        0
    } else {
        digits_value(s.drop_last()) * 10 + (s.last() as nat - '0' as nat) as nat
    }
}

/// The index that `tok` writes, if it is an unsigned integer wrapped in
/// brackets and whitespace.
pub open spec fn index_token(tok: Seq<char>) -> Option<nat> {
    if all_digits(strip(tok)) {
        Some(digits_value(strip(tok)))
    } else {
        None
    }
}

/// `tok` is the filename of `e`, or its name once trimmed.
pub open spec fn name_match(e: EntryView, tok: Seq<char>) -> bool {
    filename_of(e.name) == tok || e.name == trim(tok)
}

/// The position of the first entry of `es` that `tok` names.
pub open spec fn first_match(es: Seq<EntryView>, tok: Seq<char>) -> Option<int>
    decreases es.len(),
{
    if es.len() == 0 {
        None
    } else {
        match first_match(es.drop_last(), tok) {
            Some(k) => Some(k),
            None => if name_match(es.last(), tok) {
                Some(es.len() - 1)
            } else {
                None
            },
        }
    }
}

/// `tok` is an index, and a valid one into a list of `n` entries.
pub open spec fn index_hit(tok: Seq<char>, n: nat) -> bool {
    index_token(tok) is Some && index_token(tok)->Some_0 < n
}

/// The position that `tok` selects in `es`: the index that it writes when
/// that is a valid index, else the first entry that it names.
pub open spec fn selected(tok: Seq<char>, es: Seq<EntryView>) -> Option<int> {
    if index_hit(tok, es.len()) {
        Some(index_token(tok)->Some_0 as int)
    } else {
        first_match(es, tok)
    }
}

/// What the entries hold.
pub open spec fn views(es: Seq<DesktopEntry>) -> Seq<EntryView> {
    es.map_values(|e: DesktopEntry| e@)
}

pub proof fn lemma_first_match(es: Seq<EntryView>, tok: Seq<char>)
    ensures
        match first_match(es, tok) {
            Some(k) => 0 <= k < es.len() && name_match(es[k], tok) && forall|j: int|
                0 <= j < k ==> !name_match(#[trigger] es[j], tok),
            None => forall|j: int| 0 <= j < es.len() ==> !name_match(#[trigger] es[j], tok),
        },
    decreases es.len(),
{
    if es.len() > 0 {
        let p = es.drop_last();
        lemma_first_match(p, tok);
        assert forall|j: int| 0 <= j < p.len() implies #[trigger] p[j] == es[j] by {}
        match first_match(p, tok) {
            Some(k) => {
                assert(p[k] == es[k]);
                assert forall|j: int| 0 <= j < k implies !name_match(#[trigger] es[j], tok) by {
                    assert(p[j] == es[j]);
                }
            },
            None => {
                assert forall|j: int| 0 <= j < es.len() - 1 implies !name_match(
                    #[trigger] es[j],
                    tok,
                ) by {
                    assert(p[j] == es[j]);
                }
            },
        }
    }
}

/// Whether `c` may wrap an index.
fn is_wrap_char(c: char) -> (r: bool)
    ensures
        r == is_wrap(c),
{
    is_whitespace(c) || c == '(' || c == ')' || c == '{' || c == '}' || c == '[' || c == ']'
}

/// The bounds of `v` once wrapping characters are stripped.
fn strip_range(v: &Vec<char>) -> (r: (usize, usize))
    ensures
        r.0 <= r.1 <= v@.len(),
        v@.subrange(r.0 as int, r.1 as int) == strip(v@),
{
    let hi = v.len();
    proof {
        assert(v@.subrange(0, hi as int) =~= v@);
    }
    let mut a: usize = 0;
    while a < hi && is_wrap_char(v[a])
        invariant
            a <= hi == v@.len(),
            strip_start(v@.subrange(a as int, hi as int)) == strip_start(v@),
        decreases hi - a,
    {
        proof {
            assert(v@.subrange(a as int, hi as int).drop_first() =~= v@.subrange(a + 1, hi as int));
        }
        a = a + 1;
    }
    proof {
        assert(v@.subrange(0, hi as int) =~= v@);
    }
    let mut b: usize = hi;
    while b > a && is_wrap_char(v[b - 1])
        invariant
            a <= b <= hi == v@.len(),
            strip_end(v@.subrange(a as int, b as int)) == strip(v@),
        decreases b - a,
    {
        proof {
            assert(v@.subrange(a as int, b as int).drop_last() =~= v@.subrange(a as int, b - 1));
        }
        b = b - 1;
    }
    (a, b)
}

/// Reads `v[lo..hi]` as an index into a list of `len` entries: whether it
/// is all digits, and then the index, or `len` when it is out of range.
fn read_index(v: &Vec<char>, lo: usize, hi: usize, len: usize) -> (r: (bool, usize))
    requires
        lo <= hi <= v@.len(),
    ensures
        r.0 == all_digits(v@.subrange(lo as int, hi as int)),
        r.0 ==> if digits_value(v@.subrange(lo as int, hi as int)) < len {
            r.1 == digits_value(v@.subrange(lo as int, hi as int))
        } else {
            r.1 == len
        },
{
    if lo == hi {
        return (false, 0);
    }
    let mut acc: usize = 0;
    let mut i: usize = lo;
    while i < hi
        invariant
            lo <= i <= hi <= v@.len(),
            forall|j: int| lo <= j < i ==> is_digit(#[trigger] v@[j]),
            acc == if digits_value(v@.subrange(lo as int, i as int)) < len {
                digits_value(v@.subrange(lo as int, i as int))
            } else {
                len as nat
            },
        decreases hi - i,
    {
        let c = v[i];
        if !('0' <= c && c <= '9') {
            assert(!is_digit(v@.subrange(lo as int, hi as int)[i - lo]));
            return (false, 0);
        }
        let ghost before = digits_value(v@.subrange(lo as int, i as int));
        proof {
            assert(v@.subrange(lo as int, i + 1).drop_last() =~= v@.subrange(lo as int, i as int));
        }
        let d = (c as u32 - '0' as u32) as u128;
        if acc < len {
            let next = acc as u128 * 10 + d;
            if next < len as u128 {
                acc = next as usize;
            } else {
                acc = len;
            }
        }
        i = i + 1;
    }
    proof {
        let s = v@.subrange(lo as int, hi as int);
        assert forall|j: int| 0 <= j < s.len() implies is_digit(#[trigger] s[j]) by {
            assert(s[j] == v@[lo + j]);
        }
    }
    (true, acc)
}

/// The entry that `selector` picks from `entries`. A selector that is an
/// unsigned integer, wrapped or not in brackets and whitespace, and a valid
/// index, picks the entry there. Any other selector picks the first entry
/// whose filename is the selector, or whose name is the trimmed selector.
pub fn select(selector: &str, entries: &Vec<DesktopEntry>) -> (r: Result<DesktopEntry, SelectError>)
    ensures
        match selected(selector@, views(entries@)) {
            Some(k) => r is Ok && r->Ok_0@ == entries@[k]@,
            None => r is Err && r->Err_0.token_view() == selector@,
        },
{
    let v = chars_of(selector);
    let (a, b) = strip_range(&v);
    let (is_index, at) = read_index(&v, a, b, entries.len());
    let ghost es = views(entries@);
    if is_index && at < entries.len() {
        return Ok(entries[at].clone());
    }
    let (t0, t1) = trim_range(&v, 0, v.len());
    proof {
        assert(v@.subrange(0, v@.len() as int) =~= v@);
        lemma_first_match(es, selector@);
    }
    let mut k: usize = 0;
    while k < entries.len()
        invariant
            k <= entries@.len(),
            es == views(entries@),
            es.len() == entries@.len(),
            v@ == selector@,
            t0 <= t1 <= v@.len(),
            v@.subrange(t0 as int, t1 as int) == trim(selector@),
            forall|j: int| 0 <= j < k ==> !name_match(#[trigger] es[j], selector@),
            !index_hit(selector@, es.len()),
        decreases entries@.len() - k,
    {
        let e = &entries[k];
        let f = e.filename();
        let fv = chars_of(f.as_str());
        let nv = chars_of(e.get_name());
        let by_file = range_eq(&fv, 0, fv.len(), &v);
        let by_name = range_eq(&v, t0, t1, &nv);
        proof {
            assert(fv@.subrange(0, fv@.len() as int) =~= fv@);
            assert(es[k as int] == entries@[k as int]@);
        }
        if by_file || by_name {
            proof {
                lemma_first_match(es, selector@);
                assert(name_match(es[k as int], selector@));
                match first_match(es, selector@) {
                    Some(m) => {
                        if m > k {
                            assert(!name_match(es[k as int], selector@));
                        }
                        if m < k {
                            assert(!name_match(es[m], selector@));
                        }
                    },
                    None => {
                        assert(!name_match(es[k as int], selector@));
                    },
                }
            }
            return Ok(e.clone());
        }
        k = k + 1;
    }
    proof {
        lemma_first_match(es, selector@);
        if first_match(es, selector@) is Some {
            let m = first_match(es, selector@)->Some_0;
            assert(!name_match(es[m], selector@));
        }
    }
    Err(SelectError::NotFound { token: string_of(&v, 0, v.len()) })
}

/// What a command that may be given a selector works on: the selected entry,
/// nothing when no selector was given, or the error of the selector.
pub fn valid_entry_or_none(entry: Option<Result<DesktopEntry, SelectError>>) -> (r: Result<
    Option<DesktopEntry>,
    SelectError,
>)
    ensures
        r == match entry {
            Some(Ok(e)) => Ok(Some(e)),
            Some(Err(x)) => Err(x),
            None => Ok::<Option<DesktopEntry>, SelectError>(None),
        },
{
    match entry {
        Some(result) => match result {
            Ok(e) => Ok(Some(e)),
            Err(x) => Err(x),
        },
        None => Ok(None),
    }
}

proof fn lemma_strip_digits(w1: Seq<char>, t: Seq<char>, w2: Seq<char>)
    requires
        all_digits(t),
        forall|i: int| 0 <= i < w1.len() ==> is_wrap(#[trigger] w1[i]),
        forall|i: int| 0 <= i < w2.len() ==> is_wrap(#[trigger] w2[i]),
    ensures
        strip(w1 + t + w2) == t,
{
    lemma_strip_start(w1, t + w2);
    assert(w1 + t + w2 =~= w1 + (t + w2));
    lemma_strip_end(t, w2);
}

proof fn lemma_strip_start(w: Seq<char>, s: Seq<char>)
    requires
        s.len() > 0,
        !is_wrap(s[0]),
        forall|i: int| 0 <= i < w.len() ==> is_wrap(#[trigger] w[i]),
    ensures
        strip_start(w + s) == s,
    decreases w.len(),
{
    if w.len() > 0 {
        assert((w + s)[0] == w[0]);
        assert((w + s).drop_first() =~= w.drop_first() + s);
        assert forall|i: int| 0 <= i < w.drop_first().len() implies is_wrap(
            #[trigger] w.drop_first()[i],
        ) by {
            assert(w.drop_first()[i] == w[i + 1]);
        }
        lemma_strip_start(w.drop_first(), s);
    } else {
        assert(w + s =~= s);
        assert((w + s)[0] == s[0]);
    }
}

proof fn lemma_strip_end(s: Seq<char>, w: Seq<char>)
    requires
        s.len() > 0,
        !is_wrap(s.last()),
        forall|i: int| 0 <= i < w.len() ==> is_wrap(#[trigger] w[i]),
    ensures
        strip_end(s + w) == s,
    decreases w.len(),
{
    if w.len() > 0 {
        assert((s + w).last() == w.last());
        assert(w.last() == w[w.len() - 1]);
        assert((s + w).drop_last() =~= s + w.drop_last());
        assert forall|i: int| 0 <= i < w.drop_last().len() implies is_wrap(
            #[trigger] w.drop_last()[i],
        ) by {
            assert(w.drop_last()[i] == w[i]);
        }
        lemma_strip_end(s, w.drop_last());
    } else {
        assert(s + w =~= s);
    }
}

/// A token of digits selects by position when it is a valid index; the
/// brackets, braces, parentheses and whitespace around it then change
/// nothing. When it is past the end, it selects the first entry that has it
/// as its name, and nothing when there is none.
pub proof fn lemma_select_index(w1: Seq<char>, t: Seq<char>, w2: Seq<char>, es: Seq<EntryView>)
    requires
        all_digits(t),
        forall|i: int| 0 <= i < w1.len() ==> is_wrap(#[trigger] w1[i]),
        forall|i: int| 0 <= i < w2.len() ==> is_wrap(#[trigger] w2[i]),
    ensures
        digits_value(t) < es.len() ==> selected(t, es) == Some(digits_value(t) as int),
        digits_value(t) < es.len() ==> selected(w1 + t + w2, es) == selected(t, es),
        digits_value(t) >= es.len() ==> selected(t, es) == first_match(es, t),
        digits_value(t) >= es.len() && (forall|j: int| 0 <= j < es.len() ==> (#[trigger] es[j]).name
            != t) ==> selected(t, es) is None,
{
    lemma_strip_digits(w1, t, w2);
    lemma_strip_digits(Seq::empty(), t, Seq::empty());
    assert(Seq::<char>::empty() + t + Seq::<char>::empty() =~= t);
    lemma_first_match(es, t);
    assert(!crate::text::is_ws(t[0]) && !crate::text::is_ws(t.last()));
    assert(crate::text::trim_start(t) == t);
    assert(crate::text::trim_end(t) == t);
    assert forall|j: int| 0 <= j < es.len() implies filename_of(#[trigger] es[j].name) != t by {
        assert(filename_of(es[j].name)[0] == 'm');
    }
}

/// A token that is not an index, has no whitespace at its ends and is shorter
/// than any filename, selects the first entry whose name is exactly the
/// token; an entry whose filename or name merely contains it is passed over.
pub proof fn lemma_select_name(tok: Seq<char>, es: Seq<EntryView>, k: int)
    requires
        index_token(tok) is None,
        trim(tok) == tok,
        tok.len() < 18,
        0 <= k < es.len(),
        es[k].name == tok,
        forall|j: int| 0 <= j < k ==> (#[trigger] es[j]).name != tok,
    ensures
        selected(tok, es) == Some(k),
{
    lemma_first_match(es, tok);
    assert forall|j: int| 0 <= j < es.len() implies (name_match(#[trigger] es[j], tok) <==> es[j].name
        == tok) by {
        assert(filename_of(es[j].name).len() >= 18);
    }
    match first_match(es, tok) {
        Some(m) => {
            assert(name_match(es[m], tok));
            if m > k {
                assert(name_match(es[k], tok));
            }
            if m < k {
                assert(!name_match(es[m], tok));
            }
        },
        None => {
            assert(name_match(es[k], tok));
        },
    }
}

} // verus!
