//! Path text handling with Unix separators: the final component of a path
//! (`Path::file_name`), joining a directory with a file name (`Path::join`),
//! and comparing two paths by their components (`Path` equality).

use crate::text::str_eq;
use vstd::prelude::*;
use vstd::string::*;

verus! {

/// The index left after dropping the separators that end `s[..end]`.
pub open spec fn strip_separators(s: Seq<char>, end: int) -> int
    decreases end,
{
    if 0 < end <= s.len() && s[end - 1] == '/' {
        strip_separators(s, end - 1)
    } else {
        end
    }
}

/// The index where the component that ends at `end` starts.
pub open spec fn component_start(s: Seq<char>, end: int) -> int
    decreases end,
{
    if 0 < end <= s.len() && s[end - 1] != '/' {
        component_start(s, end - 1)
    } else {
        end
    }
}

pub proof fn lemma_strip_bounds(s: Seq<char>, end: int)
    requires
        0 <= end <= s.len(),
    ensures
        0 <= strip_separators(s, end) <= end,
    decreases end,
{
    if 0 < end && s[end - 1] == '/' {
        lemma_strip_bounds(s, end - 1);
    }
}

pub proof fn lemma_component_bounds(s: Seq<char>, end: int)
    requires
        0 <= end <= s.len(),
    ensures
        0 <= component_start(s, end) <= end,
        component_start(s, end) > 0 ==> s[component_start(s, end) - 1] == '/',
        forall|k: int| component_start(s, end) <= k < end ==> s[k] != '/',
    decreases end,
{
    if 0 < end && s[end - 1] != '/' {
        lemma_component_bounds(s, end - 1);
    }
}

/// The last component of `s[..end]` that is not a `.` after the first one.
pub open spec fn final_component(s: Seq<char>, end: int) -> Seq<char>
    decreases end,
{
    if 0 <= end <= s.len() {
        let e = strip_separators(s, end);
        let b = component_start(s, e);
        proof {
            lemma_strip_bounds(s, end);
            lemma_component_bounds(s, e);
        }
        if e - b == 1 && s[b] == '.' && b > 0 {
            final_component(s, b)
        } else {
            s.subrange(b, e)
        }
    } else {
        Seq::empty()
    }
}

/// The file name of a path (`Path::file_name`, lossily converted), or the
/// empty text when the path has none (it is empty, a root, or ends in `..`).
pub open spec fn file_name_of(path: Seq<char>) -> Seq<char> {
    let c = final_component(path, path.len() as int);
    if c.len() == 0 || c == "."@ || c == ".."@ {
        Seq::empty()
    } else {
        c
    }
}

/// The final component of a path, or the empty string when it has none.
pub fn file_name(path: &str) -> (r: String)
    ensures
        r@ == file_name_of(path@),
{
    let n = path.unicode_len();
    let mut end: usize = n;
    loop
        invariant
            n == path@.len(),
            end <= n,
            final_component(path@, n as int) == final_component(path@, end as int),
        decreases end,
    {
        let mut e = end;
        while e > 0 && path.get_char(e - 1) == '/'
            invariant
                n == path@.len(),
                e <= end <= n,
                strip_separators(path@, end as int) == strip_separators(path@, e as int),
            decreases e,
        {
            e = e - 1;
        }
        let mut b = e;
        while b > 0 && path.get_char(b - 1) != '/'
            invariant
                n == path@.len(),
                b <= e <= n,
                component_start(path@, e as int) == component_start(path@, b as int),
            decreases b,
        {
            b = b - 1;
        }
        proof {
            lemma_strip_bounds(path@, end as int);
        }
        if e - b == 1 && b > 0 && path.get_char(b) == '.' {
            end = b;
        } else {
            let component = path.substring_char(b, e);
            proof {
                reveal_strlit(".");
                reveal_strlit("..");
            }
            if component.unicode_len() == 0 || str_eq(component, ".") || str_eq(component, "..") {
                return String::new();
            }
            return String::from_str(component);
        }
    }
}

/// `dir` joined with the relative, separator-free name `name`
/// (`Path::join`): a separator is inserted unless `dir` is empty or already
/// ends with one.
pub open spec fn joined(dir: Seq<char>, name: Seq<char>) -> Seq<char> {
    if dir.len() == 0 {
        name
    } else if dir.last() == '/' {
        dir + name
    } else {
        dir + seq!['/'] + name
    }
}

/// Joins a directory with a relative file name.
pub fn join(dir: &str, name: &str) -> (r: String)
    ensures
        r@ == joined(dir@, name@),
{
    let n = dir.unicode_len();
    if n == 0 {
        return String::from_str(name);
    }
    let mut s = String::from_str(dir);
    if dir.get_char(n - 1) != '/' {
        s.append("/");
        proof {
            reveal_strlit("/");
        }
    }
    s.append(name);
    s
}

/// The pieces of a path between separators, in order, empty pieces
/// included (`a//b/` gives `a`, ``, `b`, ``).
pub open spec fn path_pieces(s: Seq<char>) -> Seq<Seq<char>>
    decreases s.len(),
{
    if s.len() == 0 {
        seq![Seq::empty()]
    } else if s.last() == '/' {
        path_pieces(s.drop_last()).push(Seq::empty())
    } else {
        let p = path_pieces(s.drop_last());
        p.update(p.len() - 1, p.last().push(s.last()))
    }
}

/// A piece that names a component: neither empty nor `.`.
pub open spec fn is_named_piece(piece: Seq<char>) -> bool {
    piece.len() > 0 && piece != seq!['.']
}

/// The named pieces, in order.
pub open spec fn named_pieces(ps: Seq<Seq<char>>) -> Seq<Seq<char>>
    decreases ps.len(),
{
    if ps.len() == 0 {
        Seq::empty()
    } else if is_named_piece(ps.last()) {
        named_pieces(ps.drop_last()).push(ps.last())
    } else {
        named_pieces(ps.drop_last())
    }
}

/// The path starts at the root directory.
pub open spec fn has_root(s: Seq<char>) -> bool {
    s.len() > 0 && s[0] == '/'
}

/// A relative path that starts with the current directory (`.` followed by
/// a separator or the end).
pub open spec fn leading_cur_dir(s: Seq<char>) -> bool {
    !has_root(s) && path_pieces(s)[0] == seq!['.']
}

/// Two paths with the same components (`Path` equality with Unix
/// separators): repeated and trailing separators and inner `.` components
/// do not count.
pub open spec fn same_path(a: Seq<char>, b: Seq<char>) -> bool {
    &&& has_root(a) == has_root(b)
    &&& leading_cur_dir(a) == leading_cur_dir(b)
    &&& named_pieces(path_pieces(a)) == named_pieces(path_pieces(b))
}

proof fn lemma_pieces_nonempty(s: Seq<char>)
    ensures
        path_pieces(s).len() >= 1,
        path_pieces(s).len() == 1 ==> path_pieces(s)[0] == s,
    decreases s.len(),
{
    if s.len() > 0 {
        lemma_pieces_nonempty(s.drop_last());
        if s.last() != '/' && path_pieces(s.drop_last()).len() == 1 {
            assert(s.drop_last().push(s.last()) =~= s);
        }
    }
}

proof fn lemma_first_piece_stable(s: Seq<char>, c: char)
    requires
        path_pieces(s).len() > 1,
    ensures
        path_pieces(s.push(c)).len() > 1,
        path_pieces(s.push(c))[0] == path_pieces(s)[0],
{
    assert(s.push(c).drop_last() =~= s);
}

/// The root flag, the leading-current-directory flag and the named
/// components of a path.
fn path_parts(s: &str) -> (r: (bool, bool, Vec<String>))
    ensures
        r.0 == has_root(s@),
        r.1 == leading_cur_dir(s@),
        crate::text::string_texts(r.2@) == named_pieces(path_pieces(s@)),
{
    let n = s.unicode_len();
    let root = n > 0 && s.get_char(0) == '/';
    let mut out: Vec<String> = Vec::new();
    let mut cur = String::new();
    let mut seen_sep = false;
    let mut first_dot = false;
    let mut i: usize = 0;
    proof {
        reveal_strlit(".");
        assert("."@ =~= seq!['.']);
        assert(s@.take(0) =~= Seq::<char>::empty());
    }
    while i < n
        invariant
            n == s@.len(),
            i <= n,
            path_pieces(s@.take(i as int)).len() >= 1,
            cur@ == path_pieces(s@.take(i as int)).last(),
            crate::text::string_texts(out@) == named_pieces(path_pieces(s@.take(i as int)).drop_last()),
            !seen_sep ==> path_pieces(s@.take(i as int)).len() == 1,
            seen_sep ==> path_pieces(s@.take(i as int)).len() > 1 && first_dot == (path_pieces(
                s@.take(i as int),
            )[0] == seq!['.']),
        decreases n - i,
    {
        proof {
            reveal_strlit(".");
            assert("."@ =~= seq!['.']);
        }
        let c = s.get_char(i);
        let ghost prev = s@.take(i as int);
        let ghost p = path_pieces(prev);
        assert(s@.take(i + 1) =~= prev.push(c));
        assert(prev.push(c).drop_last() =~= prev);
        if c == '/' {
            proof {
                assert(path_pieces(prev.push(c)) == p.push(Seq::<char>::empty()));
                assert(p.push(Seq::<char>::empty()).drop_last() =~= p);
                assert(p =~= p.drop_last().push(p.last()));
                assert(named_pieces(p) == if is_named_piece(p.last()) {
                    named_pieces(p.drop_last()).push(p.last())
                } else {
                    named_pieces(p.drop_last())
                });
            }
            let keep = cur.unicode_len() > 0 && !crate::text::str_eq(cur.as_str(), ".");
            if !seen_sep {
                first_dot = crate::text::str_eq(cur.as_str(), ".");
                seen_sep = true;
            }
            let ghost before = out@;
            if keep {
                out.push(cur);
                assert(crate::text::string_texts(out@) =~= crate::text::string_texts(before).push(p.last()));
            }
            cur = String::new();
            proof {
                assert(cur@ =~= Seq::<char>::empty());
            }
        } else {
            proof {
                assert(path_pieces(prev.push(c)) == p.update(p.len() - 1, p.last().push(c)));
                assert(p.update(p.len() - 1, p.last().push(c)).drop_last() =~= p.drop_last());
                if seen_sep {
                    lemma_first_piece_stable(prev, c);
                }
            }
            crate::text::push_char(&mut cur, c);
        }
        i = i + 1;
    }
    assert(s@.take(n as int) =~= s@);
    let ghost p = path_pieces(s@);
    proof {
        reveal_strlit(".");
        assert("."@ =~= seq!['.']);
        assert(named_pieces(p) == if is_named_piece(p.last()) {
            named_pieces(p.drop_last()).push(p.last())
        } else {
            named_pieces(p.drop_last())
        });
        assert(p =~= p.drop_last().push(p.last()));
        lemma_pieces_nonempty(s@);
    }
    let cur_is_dot = crate::text::str_eq(cur.as_str(), ".");
    let first = if seen_sep { first_dot } else { cur_is_dot };
    let ghost before = out@;
    if cur.unicode_len() > 0 && !cur_is_dot {
        out.push(cur);
        assert(crate::text::string_texts(out@) =~= crate::text::string_texts(before).push(p.last()));
    }
    (root, !root && first, out)
}

/// Whether two lists of strings hold the same texts.
fn same_texts(a: &Vec<String>, b: &Vec<String>) -> (r: bool)
    ensures
        r == (crate::text::string_texts(a@) == crate::text::string_texts(b@)),
{
    if a.len() != b.len() {
        assert(crate::text::string_texts(a@).len() != crate::text::string_texts(b@).len());
        return false;
    }
    let n = a.len();
    let mut i: usize = 0;
    while i < n
        invariant
            n == a@.len() == b@.len(),
            i <= n,
            forall|k: int| 0 <= k < i ==> a@[k]@ == b@[k]@,
        decreases n - i,
    {
        if !str_eq(a[i].as_str(), b[i].as_str()) {
            assert(crate::text::string_texts(a@)[i as int] != crate::text::string_texts(b@)[i as int]);
            return false;
        }
        i = i + 1;
    }
    assert(crate::text::string_texts(a@) =~= crate::text::string_texts(b@));
    true
}

/// Whether two paths name the same components, as `Path` equality decides:
/// repeated and trailing separators and inner `.` components do not count.
pub fn path_eq(a: &str, b: &str) -> (r: bool)
    ensures
        r == same_path(a@, b@),
{
    let (ra, ca, pa) = path_parts(a);
    let (rb, cb, pb) = path_parts(b);
    ra == rb && ca == cb && same_texts(&pa, &pb)
}

} // verus!
