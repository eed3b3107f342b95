//! Unix paths as `std::path::Path` reads them: by components.
//!
//! A path's components are its root (`/`), a leading `.` when it starts with one, and then
//! the pieces between separators, with empty pieces and `.` dropped. Containment is decided
//! on components, so `/home/a` does not contain `/home/ab`, and `a//b/./c` is `a/b/c`.
use vstd::prelude::*;

use crate::order::views;
use crate::text::{first_index, lemma_first_index_bounds, prefix_of, starts_with, str_eq};

verus! {

/// The pieces of `s` between occurrences of `c`, as `str::split` yields them: always at
/// least one, empty ones included.
#[verifier::opaque]
pub open spec fn split_spec(s: Seq<char>, c: char) -> Seq<Seq<char>>
    decreases s.len(),
{
    match first_index(s, c) {
        Some(k) => {
            proof {
                lemma_first_index_bounds(s, c);
            }
            seq![s.take(k)] + split_spec(s.skip(k + 1), c)
        },
        None => seq![s],
    }
}

proof fn lemma_split_step(s: Seq<char>, c: char, start: int, i: int)
    requires
        0 <= start <= i < s.len(),
        s[i] == c,
        forall|q: int| start <= q < i ==> s[q] != c,
    ensures
        split_spec(s.skip(start), c) == seq![s.subrange(start, i)] + split_spec(s.skip(i + 1), c),
{
    reveal(split_spec);
    let rest = s.skip(start);
    assert forall|q: int| 0 <= q < i - start implies rest[q] != c by {
        assert(rest[q] == s[start + q]);
    }
    assert(rest[i - start] == c);
    lemma_first_index_bounds(rest, c);
    let k = first_index(rest, c)->0;
    if k < i - start {
        assert(rest[k] != c);
    } else if k > i - start {
        assert(rest[i - start] != c);
    }
    assert(rest.take(i - start) =~= s.subrange(start, i));
    assert(rest.skip(i - start + 1) =~= s.skip(i + 1));
}

proof fn lemma_split_last(s: Seq<char>, c: char, start: int)
    requires
        0 <= start <= s.len(),
        forall|q: int| start <= q < s.len() ==> s[q] != c,
    ensures
        split_spec(s.skip(start), c) == seq![s.subrange(start, s.len() as int)],
{
    reveal(split_spec);
    let rest = s.skip(start);
    lemma_first_index_bounds(rest, c);
    if first_index(rest, c) is Some {
        let k = first_index(rest, c)->0;
        assert(rest[k] == s[start + k]);
    }
    assert(rest =~= s.subrange(start, s.len() as int));
}

proof fn lemma_views_push(s: Seq<String>, x: String)
    ensures
        views(s.push(x)) == views(s).push(x@),
{
    assert(views(s.push(x)) =~= views(s).push(x@));
}

/// `str::split` around a character.
pub fn split_char(s: &str, c: char) -> (r: Vec<String>)
    ensures
        views(r@) == split_spec(s@, c),
{
    let n = s.unicode_len();
    let mut out: Vec<String> = Vec::new();
    let mut start: usize = 0;
    let mut i: usize = 0;
    assert(s@.skip(0) =~= s@);
    assert(views(out@) =~= Seq::<Seq<char>>::empty());
    while i < n
        invariant
            n == s@.len(),
            start <= i <= n,
            forall|q: int| start <= q < i ==> s@[q] != c,
            views(out@) + split_spec(s@.skip(start as int), c) == split_spec(s@, c),
        decreases n - i,
    {
        if s.get_char(i) == c {
            proof {
                lemma_split_step(s@, c, start as int, i as int);
            }
            let piece = s.substring_char(start, i).to_owned();
            let ghost before = out@;
            out.push(piece);
            proof {
                lemma_views_push(before, piece);
                assert(views(out@) + split_spec(s@.skip(i + 1), c) =~= views(before) + split_spec(s@.skip(start as int), c));
            }
            start = i + 1;
        }
        i = i + 1;
    }
    proof {
        lemma_split_last(s@, c, start as int);
    }
    let piece = s.substring_char(start, n).to_owned();
    let ghost before = out@;
    out.push(piece);
    proof {
        lemma_views_push(before, piece);
        assert(views(out@) =~= views(before) + split_spec(s@.skip(start as int), c));
    }
    out
}

/// Whether a piece is a component: not empty, and not `.`.
pub open spec fn is_component(piece: Seq<char>) -> bool {
    piece.len() > 0 && piece != seq!['.']
}

/// What a path starts with before its pieces: its root, or a leading `.`.
pub open spec fn lead(p: Seq<char>) -> Seq<Seq<char>> {
    if p.len() > 0 && p[0] == '/' {
        seq![seq!['/']]
    } else if p == seq!['.'] || prefix_of(seq!['.', '/'], p) {
        seq![seq!['.']]
    } else {
        Seq::empty()
    }
}

/// A path's components, as strings: `/` for the root, `.` for a leading current
/// directory, `..` for a parent, and each other piece as it is.
pub open spec fn components(p: Seq<char>) -> Seq<Seq<char>> {
    lead(p) + split_spec(p, '/').filter(|x: Seq<char>| is_component(x))
}

/// `Path::starts_with`: the components of `base` begin the components of `p`.
pub open spec fn path_starts_with(p: Seq<char>, base: Seq<char>) -> bool {
    let a = components(p);
    let b = components(base);
    b.len() <= a.len() && a.take(b.len() as int) == b
}

/// `Path::is_absolute` on Unix: the path has a root.
pub open spec fn absolute(p: Seq<char>) -> bool {
    p.len() > 0 && p[0] == '/'
}

/// `Path::file_name`: the last component, unless the path ends in a root, a `.` or a `..`.
pub open spec fn file_name_spec(p: Seq<char>) -> Option<Seq<char>> {
    let cs = components(p);
    if cs.len() == 0 {
        None
    } else {
        let last = cs.last();
        if last == seq!['/'] || last == seq!['.'] || last == seq!['.', '.'] {
            None
        } else {
            Some(last)
        }
    }
}

proof fn lemma_filter_push(s: Seq<Seq<char>>, x: Seq<char>)
    ensures
        s.push(x).filter(|y: Seq<char>| is_component(y)) == if is_component(x) {
            s.filter(|y: Seq<char>| is_component(y)).push(x)
        } else {
            s.filter(|y: Seq<char>| is_component(y))
        },
{
    s.lemma_filter_push(x, |y: Seq<char>| is_component(y));
}

/// The components of a path.
pub fn components_of(p: &str) -> (r: Vec<String>)
    ensures
        views(r@) == components(p@),
{
    let mut out: Vec<String> = Vec::new();
    let n = p.unicode_len();
    let dot = ".";
    let dot_slash = "./";
    proof {
        reveal_strlit(".");
        reveal_strlit("./");
        reveal_strlit("/");
    }
    let root = "/";
    assert(dot@ =~= seq!['.']);
    assert(dot_slash@ =~= seq!['.', '/']);
    assert(root@ =~= seq!['/']);
    if n > 0 && p.get_char(0) == '/' {
        out.push(root.to_owned());
        assert(views(out@) =~= seq![seq!['/']]);
    } else if str_eq(p, dot) || starts_with(p, dot_slash) {
        out.push(dot.to_owned());
        assert(views(out@) =~= seq![seq!['.']]);
    } else {
        assert(views(out@) =~= Seq::<Seq<char>>::empty());
    }
    assert(views(out@) =~= lead(p@));
    let pieces = split_char(p, '/');
    let ghost pv = views(pieces@);
    let ghost head = views(out@);
    let mut i: usize = 0;
    assert(pv.take(0) =~= Seq::<Seq<char>>::empty());
    assert(head + pv.take(0).filter(|x: Seq<char>| is_component(x)) =~= head);
    while i < pieces.len()
        invariant
            i <= pieces@.len(),
            pv == views(pieces@),
            dot@ == seq!['.'],
            views(out@) == head + pv.take(i as int).filter(|x: Seq<char>| is_component(x)),
        decreases pieces@.len() - i,
    {
        proof {
            assert(pv.take(i + 1) =~= pv.take(i as int).push(pv[i as int]));
            lemma_filter_push(pv.take(i as int), pv[i as int]);
            assert(pv[i as int] == pieces@[i as int]@);
        }
        let piece = pieces[i].as_str();
        if piece.unicode_len() > 0 && !str_eq(piece, dot) {
            let ghost before = out@;
            out.push(piece.to_owned());
            proof {
                lemma_views_push(before, out@[before.len() as int]);
                assert(views(out@) =~= views(before).push(pv[i as int]));
            }
        }
        i = i + 1;
    }
    assert(pv.take(pieces@.len() as int) =~= pv);
    out
}

/// `Path::starts_with`, on Unix paths.
pub fn starts_with_path(p: &str, base: &str) -> (r: bool)
    ensures
        r == path_starts_with(p@, base@),
{
    let a = components_of(p);
    let b = components_of(base);
    if b.len() > a.len() {
        return false;
    }
    let mut i: usize = 0;
    while i < b.len()
        invariant
            b@.len() <= a@.len(),
            views(a@) == components(p@),
            views(b@) == components(base@),
            i <= b@.len(),
            forall|q: int| 0 <= q < i ==> a@[q]@ == b@[q]@,
        decreases b@.len() - i,
    {
        if !str_eq(a[i].as_str(), b[i].as_str()) {
            assert(views(a@)[i as int] == a@[i as int]@);
            assert(views(b@)[i as int] == b@[i as int]@);
            assert(views(a@).take(views(b@).len() as int)[i as int] != views(b@)[i as int]);
            return false;
        }
        i = i + 1;
    }
    assert(views(a@).take(views(b@).len() as int) =~= views(b@));
    true
}

/// `Path::is_absolute`, on Unix paths.
pub fn is_absolute(p: &str) -> (r: bool)
    ensures
        r == absolute(p@),
{
    p.unicode_len() > 0 && p.get_char(0) == '/'
}

/// `Path::file_name`, on Unix paths.
pub fn file_name(p: &str) -> (r: Option<String>)
    ensures
        match r {
            Some(n) => file_name_spec(p@) == Some(n@),
            None => file_name_spec(p@) is None,
        },
{
    let mut cs = components_of(p);
    let k = cs.len();
    if k == 0 {
        return None;
    }
    let last = cs.pop().unwrap();
    assert(last@ == components(p@).last());
    let root = "/";
    let dot = ".";
    let dots = "..";
    proof {
        reveal_strlit("/");
        reveal_strlit(".");
        reveal_strlit("..");
    }
    assert(root@ =~= seq!['/']);
    assert(dot@ =~= seq!['.']);
    assert(dots@ =~= seq!['.', '.']);
    if str_eq(last.as_str(), root) || str_eq(last.as_str(), dot) || str_eq(last.as_str(), dots) {
        None
    } else {
        Some(last)
    }
}

} // verus!
