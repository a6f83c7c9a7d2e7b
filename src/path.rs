//! A model of slash-separated paths and the confinement rule that keeps a
//! resolved path inside its workspace root.
//!
//! Paths are strings. A component is a maximal run of characters without
//! `/`; empty runs are never components and `.` runs are dropped, as the
//! standard library's path iteration does away from the start of a relative
//! path. Confinement is decided on canonical paths, which hold no `.` or `..`.

use vstd::prelude::*;
use crate::text::push_char;

verus! {

pub open spec fn views(v: Seq<String>) -> Seq<Seq<char>> {
    v.map_values(|s: String| s@)
}

/// Adds a finished run to the list when it counts as a segment.
pub open spec fn close_run(done: Seq<Seq<char>>, run: Seq<char>, keep_dot: bool) -> Seq<Seq<char>> {
    if run.len() == 0 || (!keep_dot && run == seq!['.']) {
        done
    } else {
        done.push(run)
    }
}

/// Left-to-right scan of `s`: the segments finished so far and the run being read.
pub open spec fn scan(s: Seq<char>, keep_dot: bool) -> (Seq<Seq<char>>, Seq<char>)
    decreases s.len(),
{
    if s.len() == 0 {
        (Seq::empty(), Seq::empty())
    } else {
        let prev = scan(s.drop_last(), keep_dot);
        if s.last() == '/' {
            (close_run(prev.0, prev.1, keep_dot), Seq::empty())
        } else {
            (prev.0, prev.1.push(s.last()))
        }
    }
}

/// The non-empty pieces of `s` between slashes, `.` pieces dropped unless `keep_dot`.
pub open spec fn segments(s: Seq<char>, keep_dot: bool) -> Seq<Seq<char>> {
    close_run(scan(s, keep_dot).0, scan(s, keep_dot).1, keep_dot)
}

/// The components of a path.
pub open spec fn components(p: Seq<char>) -> Seq<Seq<char>> {
    segments(p, false)
}

pub open spec fn is_absolute(p: Seq<char>) -> bool {
    p.len() > 0 && p[0] == '/'
}

pub open spec fn is_prefix_of<A>(a: Seq<A>, b: Seq<A>) -> bool {
    a.len() <= b.len() && b.subrange(0, a.len() as int) == a
}

/// `p` lies at or below `base`: an absolute base admits absolute paths only, a
/// relative base with components admits relative paths only, and then the
/// components of `base` begin those of `p`.
pub open spec fn starts_with(p: Seq<char>, base: Seq<char>) -> bool {
    &&& (is_absolute(base) == is_absolute(p) || (!is_absolute(base) && components(base).len() == 0))
    &&& is_prefix_of(components(base), components(p))
}

/// Components joined by single slashes.
pub open spec fn joined(cs: Seq<Seq<char>>) -> Seq<char>
    decreases cs.len(),
{
    if cs.len() == 0 {
        Seq::empty()
    } else if cs.len() == 1 {
        cs[0]
    } else {
        joined(cs.drop_last()) + seq!['/'] + cs.last()
    }
}

/// Each component preceded by a slash.
pub open spec fn slashed(cs: Seq<Seq<char>>) -> Seq<char>
    decreases cs.len(),
{
    if cs.len() == 0 {
        Seq::empty()
    } else {
        slashed(cs.drop_last()) + seq!['/'] + cs.last()
    }
}

/// The part of `p` below `base`, as a relative path.
pub open spec fn relative_to(p: Seq<char>, base: Seq<char>) -> Seq<char> {
    joined(components(p).subrange(components(base).len() as int, components(p).len() as int))
}

/// `s` without its leading slashes.
pub open spec fn trim_leading_slashes(s: Seq<char>) -> Seq<char>
    decreases s.len(),
{
    if s.len() > 0 && s[0] == '/' {
        trim_leading_slashes(s.drop_first())
    } else {
        s
    }
}

/// `rel` appended to `base`, with one slash between them when `base` does not end in one.
pub open spec fn join_path(base: Seq<char>, rel: Seq<char>) -> Seq<char> {
    if base.len() == 0 || base.last() == '/' {
        base + rel
    } else {
        base + seq!['/'] + rel
    }
}

/// The last component, unless the path ends in `..` or has none.
pub open spec fn file_name(p: Seq<char>) -> Option<Seq<char>> {
    let cs = components(p);
    if cs.len() == 0 || cs.last() == seq!['.', '.'] {
        None
    } else {
        Some(cs.last())
    }
}

/// Index of the last `c` in `s`, or -1.
pub open spec fn last_index_of(s: Seq<char>, c: char) -> int
    decreases s.len(),
{
    if s.len() == 0 {
        -1
    } else if s.last() == c {
        s.len() - 1
    } else {
        last_index_of(s.drop_last(), c)
    }
}

/// What follows the last dot of the file name, when that dot is not its first character.
pub open spec fn extension(p: Seq<char>) -> Option<Seq<char>> {
    match file_name(p) {
        Some(name) => {
            let i = last_index_of(name, '.');
            if i > 0 {
                Some(name.subrange(i + 1, name.len() as int))
            } else {
                None
            }
        },
        None => None,
    }
}

pub open spec fn is_markdown(p: Seq<char>) -> bool {
    extension(p) == Some(seq!['m', 'd'])
}

/// A file or directory whose name begins with a dot.
pub open spec fn is_hidden_name(name: Seq<char>) -> bool {
    name.len() > 0 && name[0] == '.'
}

proof fn lemma_last_index_bounds(s: Seq<char>, c: char)
    ensures
        -1 <= last_index_of(s, c) < s.len(),
        last_index_of(s, c) >= 0 ==> s[last_index_of(s, c)] == c,
    decreases s.len(),
{
    if s.len() > 0 && s.last() != c {
        lemma_last_index_bounds(s.drop_last(), c);
    }
}

fn is_dot(s: &String) -> (r: bool)
    ensures
        r == (s@ == seq!['.']),
{
    if s.as_str().unicode_len() == 1 {
        let c = s.as_str().get_char(0);
        proof {
            if c == '.' {
                assert(s@ =~= seq!['.']);
            }
        }
        c == '.'
    } else {
        false
    }
}

/// The pieces of `p` between slashes, as `segments` describes them.
pub fn split_segments(p: &str, keep_dot: bool) -> (r: Vec<String>)
    ensures
        views(r@) == segments(p@, keep_dot),
{
    let n = p.unicode_len();
    let mut done: Vec<String> = Vec::new();
    let mut run = String::new();
    let mut i: usize = 0;
    while i < n
        invariant
            i <= n,
            n == p@.len(),
            views(done@) == scan(p@.take(i as int), keep_dot).0,
            run@ == scan(p@.take(i as int), keep_dot).1,
        decreases n - i,
    {
        let c = p.get_char(i);
        let ghost prev = p@.take(i as int);
        assert(p@.take(i as int + 1).drop_last() =~= prev);
        if c == '/' {
            let dot = is_dot(&run);
            if run.unicode_len() > 0 && (keep_dot || !dot) {
                proof {
                    assert(views(done@.push(run)) =~= views(done@).push(run@));
                }
                done.push(run);
            }
            run = String::new();
        } else {
            push_char(&mut run, c);
        }
        i = i + 1;
    }
    assert(p@.take(n as int) =~= p@);
    let dot = is_dot(&run);
    if run.unicode_len() > 0 && (keep_dot || !dot) {
        proof {
            assert(views(done@.push(run)) =~= views(done@).push(run@));
        }
        done.push(run);
    }
    done
}

pub fn path_components(p: &str) -> (r: Vec<String>)
    ensures
        views(r@) == components(p@),
{
    split_segments(p, false)
}

pub fn path_is_absolute(p: &str) -> (r: bool)
    ensures
        r == is_absolute(p@),
{
    p.unicode_len() > 0 && p.get_char(0) == '/'
}

/// Whether `a` begins `b`.
fn strings_prefix(a: &Vec<String>, b: &Vec<String>) -> (r: bool)
    ensures
        r == is_prefix_of(views(a@), views(b@)),
{
    if a.len() > b.len() {
        return false;
    }
    let mut i: usize = 0;
    while i < a.len()
        invariant
            a.len() <= b.len(),
            i <= a.len(),
            forall|j: int| 0 <= j < i ==> a@[j]@ == b@[j]@,
        decreases a.len() - i,
    {
        if a[i] != b[i] {
            proof {
                let va = views(a@);
                let vb = views(b@);
                assert(vb.subrange(0, va.len() as int)[i as int] != va[i as int]);
            }
            return false;
        }
        i = i + 1;
    }
    proof {
        assert(views(b@).subrange(0, views(a@).len() as int) =~= views(a@));
    }
    true
}

/// Whether `p` lies at or below `base`, component by component.
pub fn path_starts_with(p: &str, base: &str) -> (r: bool)
    ensures
        r == starts_with(p@, base@),
{
    let pa = path_is_absolute(p);
    let ba = path_is_absolute(base);
    let pc = path_components(p);
    let bc = path_components(base);
    if pa != ba && (ba || bc.len() > 0) {
        return false;
    }
    strings_prefix(&bc, &pc)
}

/// Components joined by single slashes.
pub fn join_strings(cs: &Vec<String>, from: usize) -> (r: String)
    requires
        from <= cs.len(),
    ensures
        r@ == joined(views(cs@).subrange(from as int, cs.len() as int)),
{
    let mut out = String::new();
    let mut i: usize = from;
    while i < cs.len()
        invariant
            from <= i <= cs.len(),
            out@ == joined(views(cs@).subrange(from as int, i as int)),
        decreases cs.len() - i,
    {
        let ghost before = views(cs@).subrange(from as int, i as int);
        let ghost after = views(cs@).subrange(from as int, i + 1);
        assert(after.drop_last() =~= before);
        if i > from {
            push_char(&mut out, '/');
        } else {
            assert(after.len() == 1);
        }
        out.append(cs[i].as_str());
        i = i + 1;
        proof {
            if after.len() > 1 {
                assert(out@ =~= joined(before) + seq!['/'] + after.last());
            }
        }
    }
    out
}

/// `p` without its leading slashes.
pub fn trim_slashes_start(s: &str) -> (r: String)
    ensures
        r@ == trim_leading_slashes(s@),
{
    let n = s.unicode_len();
    let mut i: usize = 0;
    assert(s@.subrange(0, n as int) =~= s@);
    while i < n && s.get_char(i) == '/'
        invariant
            i <= n,
            n == s@.len(),
            trim_leading_slashes(s@) == trim_leading_slashes(s@.subrange(i as int, n as int)),
        decreases n - i,
    {
        assert(s@.subrange(i as int, n as int).drop_first() =~= s@.subrange(i + 1, n as int));
        i = i + 1;
    }
    let rest = s.substring_char(i, n);
    assert(s@.subrange(i as int, n as int).len() == 0 || s@.subrange(i as int, n as int)[0] != '/');
    String::from_str(rest)
}

/// The last component, as `file_name` describes it.
pub fn path_file_name(p: &str) -> (r: Option<String>)
    ensures
        r.is_some() == file_name(p@).is_some(),
        r.is_some() ==> r.unwrap()@ == file_name(p@).unwrap(),
{
    let cs = path_components(p);
    let n = cs.len();
    if n == 0 {
        return None;
    }
    let last = &cs[n - 1];
    proof {
        assert(views(cs@).last() == last@);
    }
    if last.as_str().unicode_len() == 2 && last.as_str().get_char(0) == '.' && last.as_str().get_char(
        1,
    ) == '.' {
        assert(last@ =~= seq!['.', '.']);
        return None;
    }
    Some(last.clone())
}

/// Index of the last dot of `s`, if there is one.
fn last_dot(s: &str) -> (r: Option<usize>)
    ensures
        r.is_none() ==> last_index_of(s@, '.') == -1,
        r.is_some() ==> last_index_of(s@, '.') == r.unwrap() as int,
{
    let mut j: usize = s.unicode_len();
    assert(s@.take(j as int) =~= s@);
    while j > 0 && s.get_char(j - 1) != '.'
        invariant
            j <= s@.len(),
            last_index_of(s@, '.') == last_index_of(s@.take(j as int), '.'),
        decreases j,
    {
        assert(s@.take(j as int).drop_last() =~= s@.take(j - 1));
        j = j - 1;
    }
    if j == 0 {
        None
    } else {
        assert(s@.take(j as int).last() == '.');
        Some(j - 1)
    }
}

/// The extension of the file name, as `extension` describes it.
pub fn path_extension(p: &str) -> (r: Option<String>)
    ensures
        r.is_some() == extension(p@).is_some(),
        r.is_some() ==> r.unwrap()@ == extension(p@).unwrap(),
{
    match path_file_name(p) {
        Some(name) => {
            let len = name.as_str().unicode_len();
            proof {
                lemma_last_index_bounds(name@, '.');
            }
            match last_dot(name.as_str()) {
                Some(i) => {
                    if i > 0 {
                        let ext = name.as_str().substring_char(i + 1, len);
                        Some(String::from_str(ext))
                    } else {
                        None
                    }
                },
                None => None,
            }
        },
        None => None,
    }
}

/// Whether the path names a markdown file (extension `md`).
pub fn is_markdown_path(p: &str) -> (r: bool)
    ensures
        r == is_markdown(p@),
{
    match path_extension(p) {
        Some(ext) => {
            let ok = ext.as_str().unicode_len() == 2 && ext.as_str().get_char(0) == 'm'
                && ext.as_str().get_char(1) == 'd';
            proof {
                if ok {
                    assert(ext@ =~= seq!['m', 'd']);
                }
            }
            ok
        },
        None => false,
    }
}

/// Whether a directory entry's name marks it hidden.
pub fn is_hidden(name: &str) -> (r: bool)
    ensures
        r == is_hidden_name(name@),
{
    name.unicode_len() > 0 && name.get_char(0) == '.'
}

} // verus!
