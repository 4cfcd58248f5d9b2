use vstd::prelude::*;

use crate::desktop::{
    application, application_vec, blank_view, serialize, DesktopEntry, EntryView,
};
use crate::text::{
    chars_of, first_index, has_char, last_index, lemma_first_index,
    lemma_first_index_absent, lemma_first_index_append, lemma_last_index,
    lemma_last_index_append, push_all, push_char, string_of, trim, trim_end, trim_start,
    trim_range,
};

verus! {

/// The fields that a file can set.
#[derive(Clone, Copy, PartialEq, Eq, Structural)]
pub enum Key {
    Type,
    Name,
    Comment,
    Path,
    Exec,
    Icon,
    Terminal,
    Categories,
}

/// The text of a key as it stands in a file.
pub open spec fn key_text(k: Key) -> Seq<char> {
    match k {
        Key::Type => seq!['T', 'y', 'p', 'e'],
        Key::Name => seq!['N', 'a', 'm', 'e'],
        Key::Comment => seq!['C', 'o', 'm', 'm', 'e', 'n', 't'],
        Key::Path => seq!['P', 'a', 't', 'h'],
        Key::Exec => seq!['E', 'x', 'e', 'c'],
        Key::Icon => seq!['I', 'c', 'o', 'n'],
        Key::Terminal => seq!['T', 'e', 'r', 'm', 'i', 'n', 'a', 'l'],
        Key::Categories => seq!['C', 'a', 't', 'e', 'g', 'o', 'r', 'i', 'e', 's'],
    }
}

pub fn key_vec(k: Key) -> (r: Vec<char>)
    ensures
        r@ == key_text(k),
{
    match k {
        Key::Type => vec!['T', 'y', 'p', 'e'],
        Key::Name => vec!['N', 'a', 'm', 'e'],
        Key::Comment => vec!['C', 'o', 'm', 'm', 'e', 'n', 't'],
        Key::Path => vec!['P', 'a', 't', 'h'],
        Key::Exec => vec!['E', 'x', 'e', 'c'],
        Key::Icon => vec!['I', 'c', 'o', 'n'],
        Key::Terminal => vec!['T', 'e', 'r', 'm', 'i', 'n', 'a', 'l'],
        Key::Categories => vec!['C', 'a', 't', 'e', 'g', 'o', 'r', 'i', 'e', 's'],
    }
}

/// The key whose text is `s`, if any: keys are matched exactly, case included.
pub open spec fn key_of(s: Seq<char>) -> Option<Key> {
    if s == key_text(Key::Type) {
        Some(Key::Type)
    } else if s == key_text(Key::Name) {
        Some(Key::Name)
    } else if s == key_text(Key::Comment) {
        Some(Key::Comment)
    } else if s == key_text(Key::Path) {
        Some(Key::Path)
    } else if s == key_text(Key::Exec) {
        Some(Key::Exec)
    } else if s == key_text(Key::Icon) {
        Some(Key::Icon)
    } else if s == key_text(Key::Terminal) {
        Some(Key::Terminal)
    } else if s == key_text(Key::Categories) {
        Some(Key::Categories)
    } else {
        None
    }
}

/// The name of the one section whose keys are read.
pub open spec fn section_name() -> Seq<char> {
    seq!['D', 'e', 's', 'k', 't', 'o', 'p', ' ', 'E', 'n', 't', 'r', 'y']
}

pub open spec fn header_line() -> Seq<char> {
    seq!['['] + section_name() + seq![']']
}

pub open spec fn version_key() -> Seq<char> {
    seq!['V', 'e', 'r', 's', 'i', 'o', 'n']
}

pub open spec fn version_text() -> Seq<char> {
    seq!['1', '.', '0']
}

pub open spec fn true_text() -> Seq<char> {
    seq!['t', 'r', 'u', 'e']
}

pub open spec fn false_text() -> Seq<char> {
    seq!['f', 'a', 'l', 's', 'e']
}

/// A `key=value` line.
pub open spec fn kv_line(k: Seq<char>, v: Seq<char>) -> Seq<char> {
    k + seq!['='] + v
}

/// `ls` with a line for `k` added when `v` is not empty.
pub open spec fn push_opt(ls: Seq<Seq<char>>, k: Key, v: Seq<char>) -> Seq<Seq<char>> {
    if v.len() == 0 {
        ls
    } else {
        ls.push(kv_line(key_text(k), v))
    }
}

/// The lines of a file, in their fixed order; the four optional fields have a
/// line only when they are not empty.
pub open spec fn desktop_lines(
    name: Seq<char>,
    comment: Seq<char>,
    path: Seq<char>,
    command: Seq<char>,
    icon: Seq<char>,
    terminal: bool,
    categories: Seq<char>,
) -> Seq<Seq<char>> {
    let ls = seq![
        header_line(),
        kv_line(key_text(Key::Type), application()),
        kv_line(version_key(), version_text()),
        kv_line(key_text(Key::Name), name),
        kv_line(key_text(Key::Exec), command),
    ];
    let ls = push_opt(ls, Key::Comment, comment);
    let ls = push_opt(ls, Key::Path, path);
    let ls = push_opt(ls, Key::Icon, icon);
    let ls = push_opt(ls, Key::Categories, categories);
    ls.push(kv_line(key_text(Key::Terminal), if terminal { true_text() } else { false_text() }))
}

/// The lines, each followed by a newline.
pub open spec fn join_lines(ls: Seq<Seq<char>>) -> Seq<char>
    decreases ls.len(),
{
    if ls.len() == 0 {
        seq![]
    } else {
        join_lines(ls.drop_last()) + ls.last() + seq!['\n']
    }
}

/// The label of a section header `[label]` at the start of `l`.
pub open spec fn header_label(l: Seq<char>) -> Option<Seq<char>> {
    if l.len() > 0 && l[0] == '[' {
        let f = 1 + first_index(l.subrange(1, l.len() as int), ']');
        if f < l.len() && f >= 2 {
            Some(l.subrange(1, f as int))
        } else {
            None
        }
    } else {
        None
    }
}

/// The trimmed key and value of a `key = value` line. What follows the first
/// `#` is a comment. The key holds no `[`, and is not empty before trimming;
/// it runs up to the last `=` that allows this.
pub open spec fn attr(l: Seq<char>) -> Option<(Seq<char>, Seq<char>)> {
    let h = first_index(l, '#');
    let b = if first_index(l, '[') < h {
        first_index(l, '[')
    } else {
        h
    };
    let k = last_index(l.subrange(0, b as int), '=');
    if k >= 1 {
        Some((trim(l.subrange(0, k)), trim(l.subrange(k + 1, h as int))))
    } else {
        None
    }
}

/// `true`, in any case, starts at `i` in `s`.
pub open spec fn true_at(s: Seq<char>, i: int) -> bool {
    &&& 0 <= i && i + 4 <= s.len()
    &&& (s[i] == 't' || s[i] == 'T')
    &&& (s[i + 1] == 'r' || s[i + 1] == 'R')
    &&& (s[i + 2] == 'u' || s[i + 2] == 'U')
    &&& (s[i + 3] == 'e' || s[i + 3] == 'E')
}

/// `s` contains `true`, ignoring case.
pub open spec fn has_true(s: Seq<char>) -> bool {
    exists|i: int| true_at(s, i)
}

/// `e` with the field of `k` set; a terminal flag is set to `flag`.
pub open spec fn set_view(e: EntryView, k: Key, v: Seq<char>, flag: bool) -> EntryView {
    match k {
        Key::Type => EntryView { kind: v, ..e },
        Key::Name => EntryView { name: v, ..e },
        Key::Comment => EntryView { comment: v, ..e },
        Key::Path => EntryView { path: v, ..e },
        Key::Exec => EntryView { command: v, ..e },
        Key::Icon => EntryView { icon: v, ..e },
        Key::Terminal => EntryView { terminal: flag, ..e },
        Key::Categories => EntryView { categories: v, ..e },
    }
}

/// What one line does to the entry being read and to whether the parser is
/// inside the `Desktop Entry` section.
pub open spec fn step(e: EntryView, reading: bool, l: Seq<char>) -> (EntryView, bool) {
    let reading = match header_label(l) {
        Some(label) => label == section_name(),
        None => reading,
    };
    if !reading {
        (e, false)
    } else {
        match attr(l) {
            Some((k, v)) => match key_of(k) {
                Some(key) => (set_view(e, key, v, has_true(v)), true),
                None => (e, true),
            },
            None => (e, true),
        }
    }
}

/// The state after reading `s`: the entry, whether the parser is inside the
/// section, and the line not yet ended by a newline.
pub open spec fn scan(s: Seq<char>) -> (EntryView, bool, Seq<char>)
    decreases s.len(),
{
    if s.len() == 0 {
        (crate::desktop::blank_view(), false, seq![])
    } else {
        let t = scan(s.drop_last());
        if s.last() == '\n' {
            let u = step(t.0, t.1, t.2);
            (u.0, u.1, seq![])
        } else {
            (t.0, t.1, t.2.push(s.last()))
        }
    }
}

/// The entry that the text `s` describes.
pub open spec fn parse(s: Seq<char>) -> EntryView {
    let t = scan(s);
    step(t.0, t.1, t.2).0
}

/// `lo` plus the index of the first `c` in `v[lo..hi]`, or `hi`.
fn find_first(v: &Vec<char>, lo: usize, hi: usize, c: char) -> (r: usize)
    requires
        lo <= hi <= v@.len(),
    ensures
        r == lo + first_index(v@.subrange(lo as int, hi as int), c),
{
    let mut i: usize = lo;
    while i < hi && v[i] != c
        invariant
            lo <= i <= hi <= v@.len(),
            forall|j: int| lo <= j < i ==> v@[j] != c,
        decreases hi - i,
    {
        i = i + 1;
    }
    proof {
        let s = v@.subrange(lo as int, hi as int);
        lemma_first_index(s, c);
        let f = first_index(s, c);
        if f < i - lo {
            assert(s[f as int] == v@[lo + f]);
        }
        if f > i - lo {
            assert(s[i - lo] == v@[i as int]);
        }
    }
    i
}

/// The index of the last `c` in `v[lo..hi]`.
fn find_last(v: &Vec<char>, lo: usize, hi: usize, c: char) -> (r: Option<usize>)
    requires
        lo <= hi <= v@.len(),
    ensures
        match r {
            Some(k) => lo <= k < hi && last_index(v@.subrange(lo as int, hi as int), c) == k - lo,
            None => last_index(v@.subrange(lo as int, hi as int), c) == -1,
        },
{
    let ghost s = v@.subrange(lo as int, hi as int);
    let mut j: usize = hi;
    while j > lo
        invariant
            lo <= j <= hi <= v@.len(),
            s == v@.subrange(lo as int, hi as int),
            forall|m: int| j <= m < hi ==> v@[m] != c,
        decreases j - lo,
    {
        if v[j - 1] == c {
            proof {
                lemma_last_index(s, c);
                let li = last_index(s, c);
                assert(s[j - 1 - lo] == c);
                if li > j - 1 - lo {
                    assert(s[li] == v@[lo + li]);
                }
            }
            return Some(j - 1);
        }
        j = j - 1;
    }
    proof {
        lemma_last_index(s, c);
        let li = last_index(s, c);
        if li >= 0 {
            assert(s[li] == v@[lo + li]);
        }
    }
    None
}

/// The bounds of the label of a section header in `v[lo..hi]`.
fn header_range(v: &Vec<char>, lo: usize, hi: usize) -> (r: Option<(usize, usize)>)
    requires
        lo <= hi <= v@.len(),
    ensures
        match r {
            Some((a, b)) => lo <= a <= b <= hi && header_label(v@.subrange(lo as int, hi as int))
                == Some(v@.subrange(a as int, b as int)),
            None => header_label(v@.subrange(lo as int, hi as int)) is None,
        },
{
    let ghost l = v@.subrange(lo as int, hi as int);
    if hi > lo && v[lo] == '[' {
        let f = find_first(v, lo + 1, hi, ']');
        proof {
            assert(l.subrange(1, l.len() as int) =~= v@.subrange(lo + 1, hi as int));
        }
        if f < hi && f >= lo + 2 {
            proof {
                assert(l.subrange(1, f - lo) =~= v@.subrange(lo + 1, f as int));
            }
            Some((lo + 1, f))
        } else {
            None
        }
    } else {
        None
    }
}

/// The bounds of the trimmed key and value of a `key = value` line.
fn attr_ranges(v: &Vec<char>, lo: usize, hi: usize) -> (r: Option<(usize, usize, usize, usize)>)
    requires
        lo <= hi <= v@.len(),
    ensures
        match r {
            Some((k0, k1, v0, v1)) => k0 <= k1 <= v@.len() && v0 <= v1 <= v@.len() && attr(
                v@.subrange(lo as int, hi as int),
            ) == Some((v@.subrange(k0 as int, k1 as int), v@.subrange(v0 as int, v1 as int))),
            None => attr(v@.subrange(lo as int, hi as int)) is None,
        },
{
    let ghost l = v@.subrange(lo as int, hi as int);
    let h = find_first(v, lo, hi, '#');
    let q = find_first(v, lo, hi, '[');
    let b = if q < h {
        q
    } else {
        h
    };
    proof {
        lemma_first_index(l, '#');
        assert(l.subrange(0, b - lo) =~= v@.subrange(lo as int, b as int));
    }
    match find_last(v, lo, b, '=') {
        Some(k) => {
            if k >= lo + 1 {
                let (k0, k1) = trim_range(v, lo, k);
                let (v0, v1) = trim_range(v, k + 1, h);
                proof {
                    assert(l.subrange(0, k - lo) =~= v@.subrange(lo as int, k as int));
                    assert(l.subrange(k - lo + 1, h - lo) =~= v@.subrange(k + 1, h as int));
                }
                Some((k0, k1, v0, v1))
            } else {
                None
            }
        },
        None => None,
    }
}

/// Whether `v[lo..hi]` contains `true`, ignoring case.
fn range_has_true(v: &Vec<char>, lo: usize, hi: usize) -> (r: bool)
    requires
        lo <= hi <= v@.len(),
    ensures
        r == has_true(v@.subrange(lo as int, hi as int)),
{
    let ghost s = v@.subrange(lo as int, hi as int);
    let mut i: usize = lo;
    while hi - i >= 4
        invariant
            lo <= i <= hi <= v@.len(),
            s == v@.subrange(lo as int, hi as int),
            forall|j: int| 0 <= j < i - lo ==> !true_at(s, j),
        decreases hi - i,
    {
        let a = v[i];
        let b = v[i + 1];
        let c = v[i + 2];
        let d = v[i + 3];
        if (a == 't' || a == 'T') && (b == 'r' || b == 'R') && (c == 'u' || c == 'U') && (d == 'e'
            || d == 'E') {
            assert(true_at(s, i - lo));
            return true;
        }
        assert(!true_at(s, i - lo));
        i = i + 1;
    }
    assert forall|j: int| !true_at(s, j) by {
        if 0 <= j && j + 4 <= s.len() {
            assert(j < i - lo);
        }
    }
    false
}

/// The key whose text is `v[lo..hi]`, if any.
fn recognize(v: &Vec<char>, lo: usize, hi: usize) -> (r: Option<Key>)
    requires
        lo <= hi <= v@.len(),
    ensures
        r == key_of(v@.subrange(lo as int, hi as int)),
{
    if crate::text::range_eq(v, lo, hi, &key_vec(Key::Type)) {
        Some(Key::Type)
    } else if crate::text::range_eq(v, lo, hi, &key_vec(Key::Name)) {
        Some(Key::Name)
    } else if crate::text::range_eq(v, lo, hi, &key_vec(Key::Comment)) {
        Some(Key::Comment)
    } else if crate::text::range_eq(v, lo, hi, &key_vec(Key::Path)) {
        Some(Key::Path)
    } else if crate::text::range_eq(v, lo, hi, &key_vec(Key::Exec)) {
        Some(Key::Exec)
    } else if crate::text::range_eq(v, lo, hi, &key_vec(Key::Icon)) {
        Some(Key::Icon)
    } else if crate::text::range_eq(v, lo, hi, &key_vec(Key::Terminal)) {
        Some(Key::Terminal)
    } else if crate::text::range_eq(v, lo, hi, &key_vec(Key::Categories)) {
        Some(Key::Categories)
    } else {
        None
    }
}

/// Applies the line `v[lo..hi]` to the entry being read.
fn read_line(e: &mut DesktopEntry, reading: &mut bool, v: &Vec<char>, lo: usize, hi: usize)
    requires
        lo <= hi <= v@.len(),
    ensures
        (final(e)@, *final(reading)) == step(old(e)@, *old(reading), v@.subrange(lo as int, hi as int)),
{
    match header_range(v, lo, hi) {
        Some((a, b)) => {
            let sect = vec!['D', 'e', 's', 'k', 't', 'o', 'p', ' ', 'E', 'n', 't', 'r', 'y'];
            *reading = crate::text::range_eq(v, a, b, &sect);
        },
        None => {},
    }
    if !*reading {
        return;
    }
    match attr_ranges(v, lo, hi) {
        Some((k0, k1, v0, v1)) => match recognize(v, k0, k1) {
            Some(key) => {
                let flag = range_has_true(v, v0, v1);
                let value = string_of(v, v0, v1);
                e.set_field(key, value, flag);
            },
            None => {},
        },
        None => {},
    }
}

/// Parses the text of a file; lines of no known shape are skipped.
pub fn parse_text(input: &str) -> (r: DesktopEntry)
    ensures
        r@ == parse(input@),
{
    let v = chars_of(input);
    let mut e = DesktopEntry::blank();
    let mut reading = false;
    let mut start: usize = 0;
    let mut i: usize = 0;
    while i < v.len()
        invariant
            v@ == input@,
            start <= i <= v@.len(),
            scan(v@.take(i as int)) == (e@, reading, v@.subrange(start as int, i as int)),
        decreases v@.len() - i,
    {
        proof {
            assert(v@.take(i + 1).drop_last() =~= v@.take(i as int));
        }
        if v[i] == '\n' {
            read_line(&mut e, &mut reading, &v, start, i);
            start = i + 1;
            proof {
                assert(v@.subrange(start as int, i + 1) =~= Seq::<char>::empty());
            }
        } else {
            proof {
                assert(v@.subrange(start as int, i as int).push(v@[i as int]) =~= v@.subrange(
                    start as int,
                    i + 1,
                ));
            }
        }
        i = i + 1;
    }
    proof {
        assert(v@.take(i as int) =~= input@);
    }
    read_line(&mut e, &mut reading, &v, start, i);
    e
}

proof fn lemma_join_push(ls: Seq<Seq<char>>, l: Seq<char>)
    ensures
        join_lines(ls.push(l)) == join_lines(ls) + l + seq!['\n'],
{
    assert(ls.push(l).drop_last() =~= ls);
}

/// Appends `k=v` and a newline to `r`.
fn push_kv(r: &mut String, k: &Vec<char>, v: &Vec<char>)
    ensures
        final(r)@ == old(r)@ + kv_line(k@, v@) + seq!['\n'],
{
    push_all(r, k);
    push_char(r, '=');
    push_all(r, v);
    push_char(r, '\n');
    assert(final(r)@ =~= old(r)@ + kv_line(k@, v@) + seq!['\n']);
}

/// The text of the file for an entry with these fields, in a fixed order.
/// `Comment`, `Path`, `Icon` and `Categories` are written only when they
/// are not empty.
pub fn make_desktop(
    name: &str,
    comment: &str,
    path: &str,
    command: &str,
    icon: &str,
    terminal: bool,
    categories: &str,
) -> (r: String)
    ensures
        r@ == join_lines(
            desktop_lines(name@, comment@, path@, command@, icon@, terminal, categories@),
        ),
{
    let mut r = String::new();
    let ghost mut ls: Seq<Seq<char>> = seq![];
    let head = vec!['[', 'D', 'e', 's', 'k', 't', 'o', 'p', ' ', 'E', 'n', 't', 'r', 'y', ']'];
    push_all(&mut r, &head);
    push_char(&mut r, '\n');
    proof {
        assert(head@ =~= header_line());
        lemma_join_push(ls, header_line());
        ls = ls.push(header_line());
        assert(r@ =~= join_lines(ls));
    }
    push_kv(&mut r, &key_vec(Key::Type), &application_vec());
    proof {
        lemma_join_push(ls, kv_line(key_text(Key::Type), application()));
        ls = ls.push(kv_line(key_text(Key::Type), application()));
    }
    push_kv(&mut r, &vec!['V', 'e', 'r', 's', 'i', 'o', 'n'], &vec!['1', '.', '0']);
    proof {
        lemma_join_push(ls, kv_line(version_key(), version_text()));
        ls = ls.push(kv_line(version_key(), version_text()));
    }
    push_kv(&mut r, &key_vec(Key::Name), &chars_of(name));
    proof {
        lemma_join_push(ls, kv_line(key_text(Key::Name), name@));
        ls = ls.push(kv_line(key_text(Key::Name), name@));
    }
    push_kv(&mut r, &key_vec(Key::Exec), &chars_of(command));
    proof {
        lemma_join_push(ls, kv_line(key_text(Key::Exec), command@));
        ls = ls.push(kv_line(key_text(Key::Exec), command@));
        assert(ls =~= seq![
            header_line(),
            kv_line(key_text(Key::Type), application()),
            kv_line(version_key(), version_text()),
            kv_line(key_text(Key::Name), name@),
            kv_line(key_text(Key::Exec), command@),
        ]);
    }
    push_optional(&mut r, Ghost(ls), Key::Comment, comment);
    proof {
        ls = push_opt(ls, Key::Comment, comment@);
    }
    push_optional(&mut r, Ghost(ls), Key::Path, path);
    proof {
        ls = push_opt(ls, Key::Path, path@);
    }
    push_optional(&mut r, Ghost(ls), Key::Icon, icon);
    proof {
        ls = push_opt(ls, Key::Icon, icon@);
    }
    push_optional(&mut r, Ghost(ls), Key::Categories, categories);
    proof {
        ls = push_opt(ls, Key::Categories, categories@);
    }
    let flag = if terminal {
        vec!['t', 'r', 'u', 'e']
    } else {
        vec!['f', 'a', 'l', 's', 'e']
    };
    push_kv(&mut r, &key_vec(Key::Terminal), &flag);
    proof {
        let t = if terminal {
            true_text()
        } else {
            false_text()
        };
        lemma_join_push(ls, kv_line(key_text(Key::Terminal), t));
    }
    r
}

/// Appends the line for `k` when `value` is not empty.
fn push_optional(r: &mut String, ls: Ghost<Seq<Seq<char>>>, k: Key, value: &str)
    requires
        old(r)@ == join_lines(ls@),
    ensures
        final(r)@ == join_lines(push_opt(ls@, k, value@)),
{
    let v = chars_of(value);
    if v.len() > 0 {
        push_kv(r, &key_vec(k), &v);
        proof {
            lemma_join_push(ls@, kv_line(key_text(k), value@));
        }
    }
}

/// The state after reading the lines `ls`, each ended by a newline.
pub open spec fn fold_lines(ls: Seq<Seq<char>>) -> (EntryView, bool)
    decreases ls.len(),
{
    if ls.len() == 0 {
        (blank_view(), false)
    } else {
        let t = fold_lines(ls.drop_last());
        step(t.0, t.1, ls.last())
    }
}

/// A value that a file stores and gives back unchanged: no `#`, no newline,
/// no `=` before its first `[`, and no whitespace at either end.
pub open spec fn plain_value(v: Seq<char>) -> bool {
    &&& !has_char(v, '#')
    &&& !has_char(v, '\n')
    &&& !has_char(v.subrange(0, first_index(v, '[') as int), '=')
    &&& trim(v) == v
}

/// Each field of `e` is a plain value.
pub open spec fn plain_entry(e: EntryView) -> bool {
    &&& plain_value(e.name)
    &&& plain_value(e.comment)
    &&& plain_value(e.path)
    &&& plain_value(e.command)
    &&& plain_value(e.icon)
    &&& plain_value(e.categories)
}

proof fn lemma_scan_line(s: Seq<char>, l: Seq<char>)
    requires
        scan(s).2 == Seq::<char>::empty(),
        !has_char(l, '\n'),
    ensures
        scan(s + l) == (scan(s).0, scan(s).1, l),
    decreases l.len(),
{
    if l.len() == 0 {
        assert(s + l =~= s);
    } else {
        let p = l.drop_last();
        assert forall|i: int| 0 <= i < p.len() implies p[i] != '\n' by {
            assert(p[i] == l[i]);
        }
        lemma_scan_line(s, p);
        assert((s + l).drop_last() =~= s + p);
        assert((s + l).last() == l.last());
        assert(l.last() == l[l.len() - 1]);
        assert(p.push(l.last()) =~= l);
    }
}

proof fn lemma_scan_join(ls: Seq<Seq<char>>)
    requires
        forall|i: int| 0 <= i < ls.len() ==> !has_char(#[trigger] ls[i], '\n'),
    ensures
        scan(join_lines(ls)) == (fold_lines(ls).0, fold_lines(ls).1, Seq::<char>::empty()),
    decreases ls.len(),
{
    if ls.len() > 0 {
        let p = ls.drop_last();
        assert forall|i: int| 0 <= i < p.len() implies !has_char(#[trigger] p[i], '\n') by {
            assert(p[i] == ls[i]);
        }
        lemma_scan_join(p);
        let l = ls.last();
        assert(!has_char(ls[ls.len() - 1], '\n'));
        lemma_scan_line(join_lines(p), l);
        let s = join_lines(ls);
        assert(s == join_lines(p) + l + seq!['\n']);
        assert(s.drop_last() =~= join_lines(p) + l);
    } else {
        assert(scan(join_lines(ls)) == scan(Seq::<char>::empty()));
    }
}

/// A `k=v` line with a plain key and a plain value reads back as that key and
/// that value.
proof fn lemma_attr_kv(k: Seq<char>, v: Seq<char>)
    requires
        k.len() > 0,
        k[0] != '[',
        !has_char(k, '#'),
        !has_char(k, '['),
        !has_char(k, '='),
        !has_char(k, '\n'),
        trim(k) == k,
        plain_value(v),
    ensures
        header_label(kv_line(k, v)) is None,
        attr(kv_line(k, v)) == Some((k, v)),
        !has_char(kv_line(k, v), '\n'),
{
    let ke = k + seq!['='];
    let l = kv_line(k, v);
    assert(l =~= ke + v);
    assert(l[0] == k[0]);
    assert forall|i: int| 0 <= i < l.len() implies l[i] != '#' && l[i] != '\n' by {
        if i < k.len() {
            assert(l[i] == k[i]);
        } else if i > k.len() {
            assert(l[i] == v[i - ke.len()]);
        }
    }
    assert forall|i: int| 0 <= i < ke.len() implies ke[i] != '[' by {
        if i < k.len() {
            assert(ke[i] == k[i]);
        }
    }
    lemma_first_index_absent(l, '#');
    lemma_first_index_append(ke, v, '[');
    lemma_first_index(v, '[');
    let h = first_index(l, '#');
    let q = first_index(l, '[');
    let b = if q < h {
        q
    } else {
        h
    };
    assert(b == ke.len() + first_index(v, '['));
    let vb = v.subrange(0, first_index(v, '[') as int);
    assert(l.subrange(0, b as int) =~= ke + vb);
    lemma_last_index_append(ke, vb, '=');
    assert(ke.drop_last() =~= k);
    assert(last_index(ke, '=') == k.len());
    assert(l.subrange(0, k.len() as int) =~= k);
    assert(l.subrange(k.len() as int + 1, h as int) =~= v);
}

/// What the text of every key is made of.
proof fn lemma_key_text(k: Key)
    ensures
        key_text(k).len() > 0,
        key_text(k)[0] != '[',
        !has_char(key_text(k), '#'),
        !has_char(key_text(k), '['),
        !has_char(key_text(k), '='),
        !has_char(key_text(k), '\n'),
        trim(key_text(k)) == key_text(k),
        key_of(key_text(k)) == Some(k),
{
    let t = key_text(k);
    assert(trim_start(t) == t);
    assert(trim_end(t) == t);
    assert forall|i: int| 0 <= i < t.len() implies ('A' <= t[i] && t[i] <= 'Z') || ('a' <= t[i]
        && t[i] <= 'z') by {}
}

proof fn lemma_fold_push(ls: Seq<Seq<char>>, l: Seq<char>)
    ensures
        fold_lines(ls.push(l)) == step(fold_lines(ls).0, fold_lines(ls).1, l),
{
    assert(ls.push(l).drop_last() =~= ls);
}

proof fn lemma_plain_literals()
    ensures
        plain_value(application()),
        plain_value(version_text()),
        plain_value(true_text()),
        plain_value(false_text()),
        has_true(true_text()),
        !has_true(false_text()),
        key_of(version_key()) is None,
        trim(version_key()) == version_key(),
        !has_char(version_key(), '#'),
        !has_char(version_key(), '['),
        !has_char(version_key(), '='),
        !has_char(version_key(), '\n'),
{
    let a = application();
    let b = version_text();
    let t = true_text();
    let f = false_text();
    let k = version_key();
    assert forall|i: int| 0 <= i < a.len() implies a[i] != '#' && a[i] != '\n' && a[i] != '[' && a[i] != '=' by {}
    assert forall|i: int| 0 <= i < b.len() implies b[i] != '#' && b[i] != '\n' && b[i] != '[' && b[i] != '=' by {}
    assert forall|i: int| 0 <= i < t.len() implies t[i] != '#' && t[i] != '\n' && t[i] != '[' && t[i] != '=' by {}
    assert forall|i: int| 0 <= i < f.len() implies f[i] != '#' && f[i] != '\n' && f[i] != '[' && f[i] != '=' by {}
    assert forall|i: int| 0 <= i < k.len() implies k[i] != '#' && k[i] != '\n' && k[i] != '[' && k[i] != '=' by {}
    lemma_first_index_absent(a, '[');
    lemma_first_index_absent(b, '[');
    lemma_first_index_absent(t, '[');
    lemma_first_index_absent(f, '[');
    assert(a.subrange(0, a.len() as int) =~= a);
    assert(b.subrange(0, b.len() as int) =~= b);
    assert(t.subrange(0, t.len() as int) =~= t);
    assert(f.subrange(0, f.len() as int) =~= f);
    assert(trim_start(a) == a && trim_end(a) == a);
    assert(trim_start(b) == b && trim_end(b) == b);
    assert(trim_start(t) == t && trim_end(t) == t);
    assert(trim_start(f) == f && trim_end(f) == f);
    assert(trim_start(k) == k && trim_end(k) == k);
    assert(true_at(t, 0));
    assert forall|i: int| !true_at(f, i) by {}
    assert(k != key_text(Key::Comment));
}

/// `l` starts with `k=`.
pub open spec fn starts_with_key(l: Seq<char>, k: Seq<char>) -> bool {
    l.len() > k.len() && l.subrange(0, k.len() as int + 1) == k + seq!['=']
}

/// Some line of `ls` starts with `k=`.
pub open spec fn lines_with_key(ls: Seq<Seq<char>>, k: Seq<char>) -> bool {
    exists|i: int| 0 <= i < ls.len() && starts_with_key(#[trigger] ls[i], k)
}

/// The text of the field of `k` in `e`.
pub open spec fn field_of(e: EntryView, k: Key) -> Seq<char> {
    match k {
        Key::Type => e.kind,
        Key::Name => e.name,
        Key::Comment => e.comment,
        Key::Path => e.path,
        Key::Exec => e.command,
        Key::Icon => e.icon,
        Key::Terminal => if e.terminal {
            true_text()
        } else {
            false_text()
        },
        Key::Categories => e.categories,
    }
}

/// A key that may have no line in a file.
pub open spec fn optional_key(k: Key) -> bool {
    k == Key::Comment || k == Key::Path || k == Key::Icon || k == Key::Categories
}

proof fn lemma_not_key(l: Seq<char>, k: Seq<char>)
    requires
        l.len() >= 2,
        k.len() >= 2,
        l[0] != k[0] || l[1] != k[1],
    ensures
        !starts_with_key(l, k),
{
    if starts_with_key(l, k) {
        assert(l.subrange(0, k.len() as int + 1)[0] == (k + seq!['='])[0]);
        assert(l.subrange(0, k.len() as int + 1)[1] == (k + seq!['='])[1]);
    }
}

proof fn lemma_no_key_push(ls: Seq<Seq<char>>, l: Seq<char>, k: Seq<char>)
    requires
        !lines_with_key(ls, k),
        l.len() >= 2,
        k.len() >= 2,
        l[0] != k[0] || l[1] != k[1],
    ensures
        !lines_with_key(ls.push(l), k),
{
    lemma_not_key(l, k);
    assert forall|i: int| 0 <= i < ls.push(l).len() implies !starts_with_key(
        #[trigger] ls.push(l)[i],
        k,
    ) by {
        if i < ls.len() {
            assert(ls.push(l)[i] == ls[i]);
        }
    }
}

proof fn lemma_kv_prefix(k: Seq<char>, v: Seq<char>)
    requires
        k.len() >= 2,
    ensures
        kv_line(k, v).len() >= 2,
        kv_line(k, v)[0] == k[0],
        kv_line(k, v)[1] == k[1],
{
}

proof fn lemma_no_key_opt(ls: Seq<Seq<char>>, k2: Key, v: Seq<char>, k: Key)
    requires
        !lines_with_key(ls, key_text(k)),
        k2 != k,
    ensures
        !lines_with_key(push_opt(ls, k2, v), key_text(k)),
{
    if v.len() > 0 {
        lemma_kv_prefix(key_text(k2), v);
        lemma_no_key_push(ls, kv_line(key_text(k2), v), key_text(k));
    }
}

/// An optional field that is empty has no line in the file; when every field
/// is a plain value, it is read back empty.
pub proof fn lemma_empty_field_omitted(e: EntryView, k: Key)
    requires
        optional_key(k),
        field_of(e, k).len() == 0,
    ensures
        !lines_with_key(
            desktop_lines(e.name, e.comment, e.path, e.command, e.icon, e.terminal, e.categories),
            key_text(k),
        ),
        plain_entry(e) ==> field_of(parse(serialize(e)), k).len() == 0,
{
    let kt = key_text(k);
    let h = header_line();
    let a0 = Seq::<Seq<char>>::empty();
    lemma_no_key_push(a0, h, kt);
    let a1 = a0.push(h);
    lemma_kv_prefix(key_text(Key::Type), application());
    lemma_no_key_push(a1, kv_line(key_text(Key::Type), application()), kt);
    let a2 = a1.push(kv_line(key_text(Key::Type), application()));
    lemma_kv_prefix(version_key(), version_text());
    lemma_no_key_push(a2, kv_line(version_key(), version_text()), kt);
    let a3 = a2.push(kv_line(version_key(), version_text()));
    lemma_kv_prefix(key_text(Key::Name), e.name);
    lemma_no_key_push(a3, kv_line(key_text(Key::Name), e.name), kt);
    let a4 = a3.push(kv_line(key_text(Key::Name), e.name));
    lemma_kv_prefix(key_text(Key::Exec), e.command);
    lemma_no_key_push(a4, kv_line(key_text(Key::Exec), e.command), kt);
    let a5 = a4.push(kv_line(key_text(Key::Exec), e.command));
    assert(a5 =~= seq![
        h,
        kv_line(key_text(Key::Type), application()),
        kv_line(version_key(), version_text()),
        kv_line(key_text(Key::Name), e.name),
        kv_line(key_text(Key::Exec), e.command),
    ]);
    // The line of `k` itself is left out, and every other line starts otherwise.
    let a6 = push_opt(a5, Key::Comment, e.comment);
    if k == Key::Comment {
        assert(a6 == a5);
    } else {
        lemma_no_key_opt(a5, Key::Comment, e.comment, k);
    }
    let a7 = push_opt(a6, Key::Path, e.path);
    if k == Key::Path {
        assert(a7 == a6);
    } else {
        lemma_no_key_opt(a6, Key::Path, e.path, k);
    }
    let a8 = push_opt(a7, Key::Icon, e.icon);
    if k == Key::Icon {
        assert(a8 == a7);
    } else {
        lemma_no_key_opt(a7, Key::Icon, e.icon, k);
    }
    let a9 = push_opt(a8, Key::Categories, e.categories);
    if k == Key::Categories {
        assert(a9 == a8);
    } else {
        lemma_no_key_opt(a8, Key::Categories, e.categories, k);
    }
    let tv = if e.terminal {
        true_text()
    } else {
        false_text()
    };
    lemma_kv_prefix(key_text(Key::Terminal), tv);
    lemma_no_key_push(a9, kv_line(key_text(Key::Terminal), tv), kt);
    if plain_entry(e) {
        lemma_round_trip(e);
    }
}

/// No line of `ls` holds a newline.
pub open spec fn no_newlines(ls: Seq<Seq<char>>) -> bool {
    forall|i: int| 0 <= i < ls.len() ==> !has_char(#[trigger] ls[i], '\n')
}

proof fn lemma_no_newlines_push(ls: Seq<Seq<char>>, l: Seq<char>)
    requires
        no_newlines(ls),
        !has_char(l, '\n'),
    ensures
        no_newlines(ls.push(l)),
{
    assert forall|i: int| 0 <= i < ls.push(l).len() implies !has_char(#[trigger] ls.push(l)[i], '\n') by {
        if i < ls.len() {
            assert(ls.push(l)[i] == ls[i]);
        }
    }
}

/// The state after the optional line for `k`.
proof fn lemma_fold_opt(ls: Seq<Seq<char>>, k: Key, v: Seq<char>)
    requires
        plain_value(v),
        fold_lines(ls).1,
        no_newlines(ls),
    ensures
        fold_lines(push_opt(ls, k, v)) == (if v.len() == 0 {
            fold_lines(ls)
        } else {
            (set_view(fold_lines(ls).0, k, v, has_true(v)), true)
        }),
        no_newlines(push_opt(ls, k, v)),
{
    if v.len() > 0 {
        lemma_key_text(k);
        lemma_attr_kv(key_text(k), v);
        lemma_fold_push(ls, kv_line(key_text(k), v));
        lemma_no_newlines_push(ls, kv_line(key_text(k), v));
    }
}

/// Reading back the file of an entry whose fields are plain values gives the
/// entry again, of kind `Application`: the name, the command, the terminal
/// flag and every optional field come back as they were. An optional field
/// that is empty has no line in the file, and is read back empty.
pub proof fn lemma_round_trip(e: EntryView)
    requires
        plain_entry(e),
    ensures
        parse(serialize(e)) == (EntryView { kind: application(), ..e }),
{
    lemma_plain_literals();
    let h = header_line();
    let sect = section_name();
    // The header opens the section and sets no field.
    assert(h.subrange(1, h.len() as int) =~= sect + seq![']']);
    assert forall|i: int| 0 <= i < sect.len() implies sect[i] != ']' by {}
    lemma_first_index_append(sect, seq![']'], ']');
    assert(h.subrange(1, 14) =~= sect);
    assert(header_label(h) == Some(sect));
    assert(h.subrange(0, 0) =~= Seq::<char>::empty());
    assert(attr(h) is None);
    let a0 = Seq::<Seq<char>>::empty();
    lemma_fold_push(a0, h);
    let a1 = a0.push(h);
    assert(fold_lines(a1) == (blank_view(), true));
    let lt = kv_line(key_text(Key::Type), application());
    lemma_key_text(Key::Type);
    lemma_attr_kv(key_text(Key::Type), application());
    lemma_fold_push(a1, lt);
    let a2 = a1.push(lt);
    let lv = kv_line(version_key(), version_text());
    assert(version_key()[0] != '[');
    lemma_attr_kv(version_key(), version_text());
    lemma_fold_push(a2, lv);
    let a3 = a2.push(lv);
    let ln = kv_line(key_text(Key::Name), e.name);
    lemma_key_text(Key::Name);
    lemma_attr_kv(key_text(Key::Name), e.name);
    lemma_fold_push(a3, ln);
    let a4 = a3.push(ln);
    let lx = kv_line(key_text(Key::Exec), e.command);
    lemma_key_text(Key::Exec);
    lemma_attr_kv(key_text(Key::Exec), e.command);
    lemma_fold_push(a4, lx);
    let a5 = a4.push(lx);
    assert(a5 =~= seq![h, lt, lv, ln, lx]);
    assert forall|j: int| 0 <= j < h.len() implies h[j] != '\n' by {}
    lemma_no_newlines_push(a0, h);
    lemma_no_newlines_push(a1, lt);
    lemma_no_newlines_push(a2, lv);
    lemma_no_newlines_push(a3, ln);
    lemma_no_newlines_push(a4, lx);
    assert(fold_lines(a5) == (EntryView { name: e.name, command: e.command, ..EntryView {
        kind: application(),
        ..blank_view()
    } }, true));
    lemma_fold_opt(a5, Key::Comment, e.comment);
    let a6 = push_opt(a5, Key::Comment, e.comment);
    lemma_fold_opt(a6, Key::Path, e.path);
    let a7 = push_opt(a6, Key::Path, e.path);
    lemma_fold_opt(a7, Key::Icon, e.icon);
    let a8 = push_opt(a7, Key::Icon, e.icon);
    lemma_fold_opt(a8, Key::Categories, e.categories);
    let a9 = push_opt(a8, Key::Categories, e.categories);
    let tv = if e.terminal {
        true_text()
    } else {
        false_text()
    };
    let lm = kv_line(key_text(Key::Terminal), tv);
    lemma_key_text(Key::Terminal);
    lemma_attr_kv(key_text(Key::Terminal), tv);
    lemma_fold_push(a9, lm);
    lemma_no_newlines_push(a9, lm);
    let ls = a9.push(lm);
    assert(ls == desktop_lines(e.name, e.comment, e.path, e.command, e.icon, e.terminal, e.categories));
    let r = fold_lines(ls).0;
    assert(e.comment.len() == 0 ==> e.comment =~= Seq::<char>::empty());
    assert(e.path.len() == 0 ==> e.path =~= Seq::<char>::empty());
    assert(e.icon.len() == 0 ==> e.icon =~= Seq::<char>::empty());
    assert(e.categories.len() == 0 ==> e.categories =~= Seq::<char>::empty());
    assert(r == (EntryView { kind: application(), ..e }));
    // Every line is free of newlines, so the text reads back line by line.
    lemma_scan_join(ls);
    let t = scan(serialize(e));
    assert(t.2 =~= Seq::<char>::empty());
    assert(Seq::<char>::empty().subrange(0, 0) =~= Seq::<char>::empty());
    assert(step(t.0, t.1, t.2).0 == t.0);
}

} // verus!
