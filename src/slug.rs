use vstd::prelude::*;

use crate::text::{chars_of, push_all, push_char};

verus! {

/// ASCII letters, digits and `_`.
pub open spec fn ascii_word(c: char) -> bool {
    ('0' <= c && c <= '9') || ('A' <= c && c <= 'Z') || ('a' <= c && c <= 'z') || c == '_'
}

/// Characters that a filename keeps as they are: `[A-Za-z0-9_+-]`.
pub open spec fn kept(c: char) -> bool {
    ascii_word(c) || c == '-' || c == '+'
}

/// Whether a filename keeps `c` as it is.
pub fn is_kept(c: char) -> (r: bool)
    ensures
        r == kept(c),
{
    ('0' <= c && c <= '9') || ('A' <= c && c <= 'Z') || ('a' <= c && c <= 'z') || c == '_' || c
        == '-' || c == '+'
}

/// `s` with every maximal run of characters whose flag in `keep` is false
/// replaced by a single `-`.
pub open spec fn slug_with(s: Seq<char>, keep: Seq<bool>) -> Seq<char>
    decreases s.len(),
{
    if s.len() == 0 {
        seq![]
    } else if keep[s.len() - 1] {
        slug_with(s.drop_last(), keep.drop_last()).push(s.last())
    } else if s.len() >= 2 && !keep[s.len() - 2] {
        slug_with(s.drop_last(), keep.drop_last())
    } else {
        slug_with(s.drop_last(), keep.drop_last()).push('-')
    }
}

/// Which characters of `s` a filename keeps.
pub open spec fn kept_flags(s: Seq<char>) -> Seq<bool> {
    s.map_values(|c: char| kept(c))
}

/// `s` with every maximal run of characters that are not kept replaced by a
/// single `-`.
pub open spec fn slug(s: Seq<char>) -> Seq<char> {
    slug_with(s, kept_flags(s))
}

/// Each character of a slug is a `-` or a kept character of the name.
pub proof fn lemma_slug_with_chars(s: Seq<char>, keep: Seq<bool>)
    requires
        keep.len() == s.len(),
    ensures
        forall|i: int|
            0 <= i < slug_with(s, keep).len() ==> #[trigger] slug_with(s, keep)[i] == '-' || exists|
                j: int,
            |
                0 <= j < s.len() && keep[j] && s[j] == slug_with(s, keep)[i],
    decreases s.len(),
{
    if s.len() > 0 {
        let p = s.drop_last();
        let kp = keep.drop_last();
        lemma_slug_with_chars(p, kp);
        let r = slug_with(s, keep);
        let q = slug_with(p, kp);
        assert forall|i: int| 0 <= i < r.len() implies #[trigger] r[i] == '-' || exists|j: int|
            0 <= j < s.len() && keep[j] && s[j] == r[i] by {
            if i < q.len() {
                assert(r[i] == q[i]);
                if q[i] != '-' {
                    let j = choose|j: int| 0 <= j < p.len() && kp[j] && p[j] == q[i];
                    assert(s[j] == p[j] && keep[j] == kp[j]);
                }
            } else if keep[s.len() - 1] {
                assert(r[i] == s[s.len() - 1]);
            }
        }
    }
}

/// Every filename starts with this.
pub open spec fn filename_prefix() -> Seq<char> {
    seq!['m', 'k', 'd', 'e', 's', 'k', 't', 'o', 'p', '-']
}

/// Every filename ends with this.
pub open spec fn filename_suffix() -> Seq<char> {
    seq!['.', 'd', 'e', 's', 'k', 't', 'o', 'p']
}

/// The filename under which an entry called `name` is stored.
pub open spec fn filename_of(name: Seq<char>) -> Seq<char> {
    filename_prefix() + slug(name) + filename_suffix()
}

/// `path` joined with `file`, with a `/` between them unless `path` is empty
/// or already ends with one.
pub open spec fn join_path(path: Seq<char>, file: Seq<char>) -> Seq<char> {
    if path.len() == 0 || path.last() == '/' {
        path + file
    } else {
        path + seq!['/'] + file
    }
}

/// `name` with every maximal run of characters whose flag in `keep` is
/// false replaced by a single `-`.
pub fn collapse_runs(name: &Vec<char>, keep: &Vec<bool>) -> (r: String)
    requires
        keep@.len() == name@.len(),
    ensures
        r@ == slug_with(name@, keep@),
{
    let mut body = String::new();
    let mut i: usize = 0;
    while i < name.len()
        invariant
            keep@.len() == name@.len(),
            i <= name@.len(),
            body@ == slug_with(name@.take(i as int), keep@.take(i as int)),
        decreases name@.len() - i,
    {
        proof {
            assert(name@.take(i + 1).drop_last() =~= name@.take(i as int));
            assert(keep@.take(i + 1).drop_last() =~= keep@.take(i as int));
        }
        if keep[i] {
            push_char(&mut body, name[i]);
        } else if i == 0 || keep[i - 1] {
            push_char(&mut body, '-');
        }
        i = i + 1;
    }
    proof {
        assert(name@.take(i as int) =~= name@);
        assert(keep@.take(i as int) =~= keep@);
    }
    body
}

/// The filename for an entry called `name`: a fixed prefix, the name with
/// every run of characters other than ASCII letters, digits, `_`, `-` and
/// `+` turned into one `-`, and a fixed extension.
pub fn name_to_filename(name: &str) -> (r: String)
    ensures
        r@ == filename_of(name@),
        forall|i: int| 0 <= i < slug(name@).len() ==> kept(#[trigger] slug(name@)[i]),
{
    let v = chars_of(name);
    let mut keep: Vec<bool> = Vec::new();
    let mut i: usize = 0;
    while i < v.len()
        invariant
            v@ == name@,
            i <= v@.len(),
            keep@ == kept_flags(v@).take(i as int),
        decreases v@.len() - i,
    {
        keep.push(is_kept(v[i]));
        proof {
            assert(keep@ =~= kept_flags(v@).take(i + 1));
        }
        i = i + 1;
    }
    proof {
        assert(kept_flags(v@).take(i as int) =~= kept_flags(v@));
    }
    let body = collapse_runs(&v, &keep);
    proof {
        lemma_slug_with_chars(name@, kept_flags(name@));
        assert forall|k: int| 0 <= k < slug(name@).len() implies kept(#[trigger] slug(name@)[k]) by {
            let c = slug(name@)[k];
            if c != '-' {
                let j = choose|j: int|
                    0 <= j < name@.len() && kept_flags(name@)[j] && name@[j] == c;
                assert(kept_flags(name@)[j] == kept(name@[j]));
            }
        }
    }
    let mut r = String::new();
    let pre = vec!['m', 'k', 'd', 'e', 's', 'k', 't', 'o', 'p', '-'];
    push_all(&mut r, &pre);
    let bv = chars_of(body.as_str());
    push_all(&mut r, &bv);
    let suf = vec!['.', 'd', 'e', 's', 'k', 't', 'o', 'p'];
    push_all(&mut r, &suf);
    r
}

/// The path of the file for an entry called `name` in the directory `dir`.
pub fn name_to_desktop_file_path(dir: &str, name: &str) -> (r: String)
    ensures
        r@ == join_path(dir@, filename_of(name@)),
{
    let d = chars_of(dir);
    let mut r = String::new();
    push_all(&mut r, &d);
    if d.len() > 0 && d[d.len() - 1] != '/' {
        push_char(&mut r, '/');
    }
    let f = name_to_filename(name);
    let fv = chars_of(f.as_str());
    push_all(&mut r, &fv);
    r
}

} // verus!
