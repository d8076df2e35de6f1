//! File names and extensions of paths written with `/` separators, as
//! `std::path::Path` reads them.
use crate::text::{
    chars_are, chars_lt, chars_of, find_char, find_char_exec, lemma_find_char, lemma_text_lt_irreflexive,
    lemma_text_lt_transitive, slice_chars, text_lt,
};
use vstd::prelude::*;

verus! {

/// Index of the last occurrence of `c`, if any.
pub open spec fn rfind_char(s: Seq<char>, c: char) -> Option<int>
    decreases s.len(),
{
    if s.len() == 0 {
        None
    } else if s.last() == c {
        Some(s.len() - 1)
    } else {
        rfind_char(s.drop_last(), c)
    }
}

/// `rfind_char` gives the last occurrence.
pub proof fn lemma_rfind_char(s: Seq<char>, c: char)
    ensures
        match rfind_char(s, c) {
            Some(i) => 0 <= i < s.len() && s[i] == c && forall|j: int| i < j < s.len() ==> s[j] != c,
            None => forall|j: int| 0 <= j < s.len() ==> s[j] != c,
        },
    decreases s.len(),
{
    if s.len() > 0 && s.last() != c {
        lemma_rfind_char(s.drop_last(), c);
        assert forall|j: int| 0 <= j < s.len() - 1 implies s[j] == s.drop_last()[j] by {}
    }
}

/// The last component of a path when it is a name: trailing separators and
/// `.` components are passed over; there is none for an empty path, a root, or
/// a path ending in `..` (`Path::file_name`).
pub open spec fn file_name(p: Seq<char>) -> Option<Seq<char>>
    decreases p.len(),
{
    if p.len() == 0 {
        None
    } else if p.last() == '/' {
        file_name(p.drop_last())
    } else {
        let start = match rfind_char(p, '/') {
            Some(i) => i + 1,
            None => 0,
        };
        let seg = p.skip(start);
        if seg == "."@ {
            proof {
                lemma_rfind_char(p, '/');
            }
            file_name(p.take(start))
        } else if seg == ".."@ {
            None
        } else {
            Some(seg)
        }
    }
}

/// The extension of a file name: what follows its last `.`, where that `.`
/// is not the first character (`Path::extension`).
pub open spec fn name_extension(name: Seq<char>) -> Option<Seq<char>> {
    if name == ".."@ {
        None
    } else {
        match rfind_char(name, '.') {
            None => None,
            Some(i) => if i == 0 {
                None
            } else {
                Some(name.skip(i + 1))
            },
        }
    }
}

/// The extension of a path's file name.
pub open spec fn path_extension(p: Seq<char>) -> Option<Seq<char>> {
    match file_name(p) {
        Some(n) => name_extension(n),
        None => None,
    }
}

/// Index of the last occurrence of `c` in `v[..end]`.
fn rfind_before(v: &Vec<char>, end: usize, c: char) -> (r: Option<usize>)
    requires
        end <= v.len(),
    ensures
        match r {
            Some(i) => rfind_char(v@.take(end as int), c) == Some(i as int) && i < end,
            None => rfind_char(v@.take(end as int), c) is None,
        },
{
    proof {
        lemma_rfind_char(v@.take(end as int), c);
    }
    let mut k = end;
    while k > 0
        invariant
            k <= end <= v.len(),
            rfind_char(v@.take(end as int), c) == rfind_char(v@.take(k as int), c),
        decreases k,
    {
        if v[k - 1] == c {
            assert(v@.take(k as int).last() == c);
            return Some(k - 1);
        }
        assert(v@.take(k as int).drop_last() =~= v@.take(k - 1));
        k -= 1;
    }
    None
}

/// The file name of a path (see `file_name`).
pub fn path_file_name(path: &str) -> (r: Option<Vec<char>>)
    ensures
        match r {
            Some(n) => file_name(path@) == Some(n@),
            None => file_name(path@) is None,
        },
{
    let v = chars_of(path);
    let mut end = v.len();
    assert(v@.take(end as int) =~= v@);
    loop
        invariant
            end <= v.len(),
            v@ == path@,
            file_name(v@) == file_name(v@.take(end as int)),
        decreases end,
    {
        let ghost p = v@.take(end as int);
        if end == 0 {
            return None;
        }
        if v[end - 1] == '/' {
            assert(p.drop_last() =~= v@.take(end - 1));
            end -= 1;
        } else {
            let start = match rfind_before(&v, end, '/') {
                Some(i) => i + 1,
                None => 0,
            };
            proof {
                lemma_rfind_char(p, '/');
            }
            let seg = slice_chars(&v, start, end);
            assert(seg@ =~= p.skip(start as int));
            if chars_are(&seg, ".") {
                assert(p.take(start as int) =~= v@.take(start as int));
                end = start;
            } else if chars_are(&seg, "..") {
                return None;
            } else {
                return Some(seg);
            }
        }
    }
}

/// The extension of a path's file name (see `path_extension`).
pub fn path_extension_of(path: &str) -> (r: Option<Vec<char>>)
    ensures
        match r {
            Some(e) => path_extension(path@) == Some(e@),
            None => path_extension(path@) is None,
        },
{
    let name = match path_file_name(path) {
        Some(n) => n,
        None => return None,
    };
    if chars_are(&name, "..") {
        return None;
    }
    assert(name@.take(name.len() as int) =~= name@);
    match rfind_before(&name, name.len(), '.') {
        None => None,
        Some(i) => if i == 0 {
            None
        } else {
            let e = slice_chars(&name, i + 1, name.len());
            assert(e@ =~= name@.skip(i + 1));
            Some(e)
        },
    }
}

// ---------------------------------------------------------------------------
// Components and their order
// ---------------------------------------------------------------------------

/// The pieces of a text between occurrences of `c` (an empty text is one
/// empty piece).
pub open spec fn split_on(s: Seq<char>, c: char) -> Seq<Seq<char>>
    decreases s.len(),
{
    match find_char(s, c) {
        None => seq![s],
        Some(i) => {
            proof {
                lemma_find_char(s, c);
            }
            seq![s.take(i)] + split_on(s.skip(i + 1), c)
        },
    }
}

/// A component of a path, in the order `std::path::Component` compares them.
pub enum PathPart {
    Root,
    Current,
    Parent,
    Name(Vec<char>),
}

/// A path component with its name taken by its view.
pub enum PartView {
    Root,
    Current,
    Parent,
    Name(Seq<char>),
}

impl View for PathPart {
    type V = PartView;

    open spec fn view(&self) -> PartView {
        match self {
            PathPart::Root => PartView::Root,
            PathPart::Current => PartView::Current,
            PathPart::Parent => PartView::Parent,
            PathPart::Name(n) => PartView::Name(n@),
        }
    }
}

/// Views of path components.
pub open spec fn part_views(v: Seq<PathPart>) -> Seq<PartView> {
    v.map_values(|p: PathPart| p@)
}

/// The components named by pieces: empty pieces and `.` pass, `..` is the
/// parent, anything else a name.
pub open spec fn named_parts(ss: Seq<Seq<char>>) -> Seq<PartView>
    decreases ss.len(),
{
    if ss.len() == 0 {
        Seq::empty()
    } else {
        let rest = named_parts(ss.drop_first());
        if ss[0].len() == 0 || ss[0] == "."@ {
            rest
        } else if ss[0] == ".."@ {
            seq![PartView::Parent] + rest
        } else {
            seq![PartView::Name(ss[0])] + rest
        }
    }
}

/// The components of a path (`Path::components`): a root for a leading `/`,
/// a leading `.` kept as the current directory, other `.` and empty
/// pieces dropped.
pub open spec fn components(p: Seq<char>) -> Seq<PartView> {
    let ss = split_on(p, '/');
    if p.len() > 0 && p[0] == '/' {
        seq![PartView::Root] + named_parts(ss)
    } else if ss.len() > 0 && ss[0] == "."@ {
        seq![PartView::Current] + named_parts(ss.drop_first())
    } else {
        named_parts(ss)
    }
}

/// The rank of a component's kind.
pub open spec fn part_kind(p: PartView) -> int {
    match p {
        PartView::Root => 1,
        PartView::Current => 2,
        PartView::Parent => 3,
        PartView::Name(_) => 4,
    }
}

/// The order of components: by kind, names by string order.
pub open spec fn part_lt(a: PartView, b: PartView) -> bool {
    if part_kind(a) != part_kind(b) {
        part_kind(a) < part_kind(b)
    } else {
        match (a, b) {
            (PartView::Name(x), PartView::Name(y)) => text_lt(x, y),
            _ => false,
        }
    }
}

/// Lexicographic order of component sequences.
pub open spec fn parts_lt(a: Seq<PartView>, b: Seq<PartView>) -> bool
    decreases a.len(),
{
    if a.len() == 0 {
        b.len() > 0
    } else if b.len() == 0 {
        false
    } else if a[0] != b[0] {
        part_lt(a[0], b[0])
    } else {
        parts_lt(a.drop_first(), b.drop_first())
    }
}

/// The order of paths (`PathBuf`'s `Ord`): by their components.
pub open spec fn path_lt(a: Seq<char>, b: Seq<char>) -> bool {
    parts_lt(components(a), components(b))
}

/// The pieces of a text between occurrences of `c` (see `split_on`).
pub fn split_chars(v: &Vec<char>, c: char) -> (r: Vec<Vec<char>>)
    ensures
        r@.map_values(|x: Vec<char>| x@) == split_on(v@, c),
{
    let mut out: Vec<Vec<char>> = Vec::new();
    let mut start: usize = 0;
    let mut i: usize = 0;
    assert(v@.skip(0) =~= v@);
    while i < v.len()
        invariant
            start <= i <= v.len(),
            split_on(v@, c) == out@.map_values(|x: Vec<char>| x@) + split_on(v@.skip(start as int), c),
            forall|j: int| start <= j < i ==> v@[j] != c,
        decreases v.len() - i,
    {
        if v[i] == c {
            let ghost rest = v@.skip(start as int);
            proof {
                assert forall|j: int| 0 <= j < i - start implies rest[j] != c by {
                    assert(rest[j] == v@[start + j]);
                }
                crate::text::lemma_find_char_at(rest, c, i - start);
                assert(rest.take(i - start) =~= v@.subrange(start as int, i as int));
                assert(rest.skip(i - start + 1) =~= v@.skip(i + 1));
            }
            let piece = slice_chars(v, start, i);
            let ghost prev = out@;
            out.push(piece);
            proof {
                assert(out@.map_values(|x: Vec<char>| x@) =~= prev.map_values(|x: Vec<char>| x@).push(piece@));
                assert(split_on(rest, c) == seq![piece@] + split_on(v@.skip(i + 1), c));
            }
            start = i + 1;
        }
        i += 1;
    }
    let ghost rest = v@.skip(start as int);
    proof {
        assert forall|j: int| 0 <= j < rest.len() implies rest[j] != c by {
            assert(rest[j] == v@[start + j]);
        }
        crate::text::lemma_find_char_none(rest, c);
    }
    let piece = slice_chars(v, start, v.len());
    assert(piece@ =~= rest);
    let ghost prev = out@;
    out.push(piece);
    assert(out@.map_values(|x: Vec<char>| x@) =~= prev.map_values(|x: Vec<char>| x@).push(piece@));
    out
}

/// The components named by pieces from `from` on (see `named_parts`).
fn named_from(ss: &Vec<Vec<char>>, from: usize) -> (r: Vec<PathPart>)
    requires
        from <= ss.len(),
    ensures
        part_views(r@) == named_parts(ss@.map_values(|x: Vec<char>| x@).skip(from as int)),
{
    let ghost sv = ss@.map_values(|x: Vec<char>| x@);
    let mut rev: Vec<PathPart> = Vec::new();
    let mut k = ss.len();
    assert(sv.skip(k as int) =~= Seq::<Seq<char>>::empty());
    // Built from the back: rev holds the parts of sv.skip(k), last first.
    while k > from
        invariant
            from <= k <= ss.len(),
            sv == ss@.map_values(|x: Vec<char>| x@),
            part_views(rev@).reverse() == named_parts(sv.skip(k as int)),
        decreases k,
    {
        k -= 1;
        let piece = &ss[k];
        let ghost prev = rev@;
        proof {
            assert(sv.skip(k as int).drop_first() =~= sv.skip(k + 1));
            assert(sv.skip(k as int)[0] == piece@);
        }
        if piece.len() == 0 || chars_are(piece, ".") {
        } else if chars_are(piece, "..") {
            rev.push(PathPart::Parent);
            assert(part_views(rev@).reverse() =~= seq![PartView::Parent] + part_views(prev).reverse());
        } else {
            rev.push(PathPart::Name(slice_chars(piece, 0, piece.len())));
            assert(piece@.subrange(0, piece@.len() as int) =~= piece@);
            assert(part_views(rev@).reverse() =~= seq![PartView::Name(piece@)] + part_views(prev).reverse());
        }
    }
    let mut out: Vec<PathPart> = Vec::new();
    let ghost rv = part_views(rev@);
    let mut j = rev.len();
    while j > 0
        invariant
            j <= rev.len(),
            rv == part_views(rev@),
            part_views(out@) == rv.reverse().take(rev.len() - j),
        decreases j,
    {
        j -= 1;
        let ghost prev = out@;
        let part = match &rev[j] {
            PathPart::Root => PathPart::Root,
            PathPart::Current => PathPart::Current,
            PathPart::Parent => PathPart::Parent,
            PathPart::Name(n) => PathPart::Name(slice_chars(n, 0, n.len())),
        };
        proof {
            if let PathPart::Name(n) = &rev@[j as int] {
                assert(n@.subrange(0, n@.len() as int) =~= n@);
            }
        }
        assert(part@ == rv[j as int]);
        out.push(part);
        assert(part_views(out@) =~= part_views(prev).push(rv[j as int]));
        assert(rv.reverse()[rev.len() - j - 1] == rv[j as int]);
        assert(part_views(out@) =~= rv.reverse().take(rev.len() - j));
    }
    assert(rv.reverse().take(rev.len() as int) =~= rv.reverse());
    out
}

/// The components of a path (see `components`).
pub fn path_components(path: &str) -> (r: Vec<PathPart>)
    ensures
        part_views(r@) == components(path@),
{
    let v = chars_of(path);
    let ss = split_chars(&v, '/');
    let ghost sv = ss@.map_values(|x: Vec<char>| x@);
    assert(sv.skip(0) =~= sv);
    if v.len() > 0 && v[0] == '/' {
        let rest = named_from(&ss, 0);
        let mut out: Vec<PathPart> = Vec::new();
        out.push(PathPart::Root);
        let mut rest = rest;
        let ghost rv = part_views(rest@);
        out.append(&mut rest);
        assert(part_views(out@) =~= seq![PartView::Root] + rv);
        out
    } else if ss.len() > 0 && chars_are(&ss[0], ".") {
        let rest = named_from(&ss, 1);
        assert(sv.skip(1) =~= sv.drop_first());
        let mut out: Vec<PathPart> = Vec::new();
        out.push(PathPart::Current);
        let mut rest = rest;
        let ghost rv = part_views(rest@);
        out.append(&mut rest);
        assert(part_views(out@) =~= seq![PartView::Current] + rv);
        out
    } else {
        named_from(&ss, 0)
    }
}

/// The rank of a component's kind.
fn kind_of(p: &PathPart) -> (r: u8)
    ensures
        r as int == part_kind(p@),
{
    match p {
        PathPart::Root => 1,
        PathPart::Current => 2,
        PathPart::Parent => 3,
        PathPart::Name(_) => 4,
    }
}

/// Whether two components are the same.
fn part_eq(a: &PathPart, b: &PathPart) -> (r: bool)
    ensures
        r == (a@ == b@),
{
    match (a, b) {
        (PathPart::Name(x), PathPart::Name(y)) => crate::text::chars_eq(x, y),
        _ => kind_of(a) == kind_of(b),
    }
}

/// Whether one component sorts before another (see `part_lt`).
fn part_less(a: &PathPart, b: &PathPart) -> (r: bool)
    ensures
        r == part_lt(a@, b@),
{
    let ka = kind_of(a);
    let kb = kind_of(b);
    if ka != kb {
        ka < kb
    } else {
        match (a, b) {
            (PathPart::Name(x), PathPart::Name(y)) => chars_lt(x, y),
            _ => false,
        }
    }
}

/// Whether one path sorts before another (see `path_lt`).
pub fn path_less(a: &str, b: &str) -> (r: bool)
    ensures
        r == path_lt(a@, b@),
{
    let pa = path_components(a);
    let pb = path_components(b);
    let ghost va = part_views(pa@);
    let ghost vb = part_views(pb@);
    let mut i: usize = 0;
    assert(va.skip(0) =~= va && vb.skip(0) =~= vb);
    while i < pa.len() && i < pb.len() && part_eq(&pa[i], &pb[i])
        invariant
            i <= pa.len(),
            i <= pb.len(),
            va == part_views(pa@),
            vb == part_views(pb@),
            parts_lt(va, vb) == parts_lt(va.skip(i as int), vb.skip(i as int)),
        decreases pa.len() - i,
    {
        assert(va.skip(i as int).drop_first() =~= va.skip(i + 1));
        assert(vb.skip(i as int).drop_first() =~= vb.skip(i + 1));
        i += 1;
    }
    if i == pa.len() {
        i < pb.len()
    } else if i == pb.len() {
        false
    } else {
        part_less(&pa[i], &pb[i])
    }
}


/// The order of components is strict and transitive.
proof fn lemma_part_lt(a: PartView, b: PartView, c: PartView)
    ensures
        !part_lt(a, a),
        part_lt(a, b) && part_lt(b, c) ==> part_lt(a, c),
{
    if let PartView::Name(x) = a {
        lemma_text_lt_irreflexive(x);
        if part_lt(a, b) && part_lt(b, c) {
            if let (PartView::Name(y), PartView::Name(z)) = (b, c) {
                lemma_text_lt_transitive(x, y, z);
            }
        }
    }
}

/// The order of component sequences is strict and transitive.
pub proof fn lemma_parts_lt(a: Seq<PartView>, b: Seq<PartView>, c: Seq<PartView>)
    ensures
        !parts_lt(a, a),
        parts_lt(a, b) && parts_lt(b, c) ==> parts_lt(a, c),
    decreases a.len(),
{
    if a.len() > 0 {
        lemma_parts_lt(a.drop_first(), a.drop_first(), a.drop_first());
        if b.len() > 0 && c.len() > 0 {
            lemma_part_lt(a[0], b[0], c[0]);
            lemma_parts_lt(a.drop_first(), b.drop_first(), c.drop_first());
        }
    }
}

/// Paths are ordered strictly and transitively: no path comes before
/// itself, and a path before a second that comes before a third comes before
/// the third.
pub proof fn lemma_path_lt(a: Seq<char>, b: Seq<char>, c: Seq<char>)
    ensures
        !path_lt(a, a),
        path_lt(a, b) && path_lt(b, c) ==> path_lt(a, c),
{
    lemma_parts_lt(components(a), components(b), components(c));
}

} // verus!
