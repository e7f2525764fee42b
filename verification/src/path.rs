//! Unix paths as text: components, file names and extensions.

use vstd::prelude::*;

use crate::text::{chars, slice};

verus! {

/// A path without trailing separators and trailing `.` components.
pub open spec fn settled(p: Seq<char>) -> Seq<char>
    decreases p.len(),
{
    if p.len() > 1 && (p.last() == '/' || (p.last() == '.' && p[p.len() - 2] == '/')) {
        settled(p.drop_last())
    } else {
        p
    }
}

/// The position behind the last `c`, or 0.
pub open spec fn after_last(p: Seq<char>, c: char) -> int
    decreases p.len(),
{
    if p.len() == 0 {
        0
    } else if p.last() == c {
        p.len() as int
    } else {
        after_last(p.drop_last(), c)
    }
}

/// The last component, where it names a file.
pub open spec fn file_name_of(p: Seq<char>) -> Option<Seq<char>> {
    let q = settled(p);
    let name = q.skip(after_last(q, '/'));
    if name.len() == 0 || name == seq!['.'] || name == seq!['.', '.'] {
        None
    } else {
        Some(name)
    }
}

/// Where the extension of a file name begins, behind its last dot; a leading
/// dot begins none.
pub open spec fn extension_at(name: Seq<char>) -> Option<int> {
    let i = after_last(name, '.');
    if i > 1 {
        Some(i)
    } else {
        None
    }
}

pub open spec fn extension_of(p: Seq<char>) -> Option<Seq<char>> {
    match file_name_of(p) {
        Some(name) => match extension_at(name) {
            Some(i) => Some(name.skip(i)),
            None => None,
        },
        None => None,
    }
}

/// The file name without its extension.
pub open spec fn file_stem_of(p: Seq<char>) -> Option<Seq<char>> {
    match file_name_of(p) {
        Some(name) => Some(stem_of_name(name)),
        None => None,
    }
}

pub open spec fn stem_of_name(name: Seq<char>) -> Seq<char> {
    match extension_at(name) {
        Some(i) => name.take(i - 1),
        None => name,
    }
}

/// The path with the extension of its file name replaced by `ext`, or removed
/// where `ext` is empty.
pub open spec fn with_extension_of(p: Seq<char>, ext: Seq<char>) -> Seq<char> {
    match file_stem_of(p) {
        Some(stem) => {
            let q = settled(p);
            let base = q.take(after_last(q, '/')) + stem;
            if ext.len() == 0 {
                base
            } else {
                base + seq!['.'] + ext
            }
        },
        None => p,
    }
}

/// The path without its last component; the root and the empty path have none.
pub open spec fn parent_of(p: Seq<char>) -> Option<Seq<char>> {
    let q = settled(p);
    let i = after_last(q, '/');
    if q.len() == 0 || q == seq!['/'] {
        None
    } else if i == 0 {
        Some(Seq::empty())
    } else {
        Some(settled(q.take(i)))
    }
}

/// `name` below `dir`; an absolute `name` stands alone.
pub open spec fn joined(dir: Seq<char>, name: Seq<char>) -> Seq<char> {
    if name.len() > 0 && name[0] == '/' {
        name
    } else if dir.len() == 0 || dir.last() == '/' {
        dir + name
    } else {
        dir + seq!['/'] + name
    }
}

/// The length of a path without trailing separators and `.` components.
fn settled_len(v: &Vec<char>, to: usize) -> (n: usize)
    requires
        to <= v.len(),
    ensures
        n <= to,
        v@.take(n as int) == settled(v@.take(to as int)),
{
    let mut n: usize = to;
    while n > 1 && (v[n - 1] == '/' || (v[n - 1] == '.' && v[n - 2] == '/'))
        invariant
            n <= to <= v.len(),
            settled(v@.take(n as int)) == settled(v@.take(to as int)),
        decreases n,
    {
        assert(v@.take(n as int).drop_last() =~= v@.take(n - 1));
        n -= 1;
    }
    n
}

/// The position behind the last `c` before `to`, not before `from`.
fn behind_last(v: &Vec<char>, c: char, from: usize, to: usize) -> (n: usize)
    requires
        from <= to <= v.len(),
    ensures
        from <= n <= to,
        n - from == after_last(v@.subrange(from as int, to as int), c),
{
    let mut n: usize = to;
    while n > from && v[n - 1] != c
        invariant
            from <= n <= to <= v.len(),
            after_last(v@.subrange(from as int, n as int), c) == after_last(
                v@.subrange(from as int, to as int),
                c,
            ),
        decreases n,
    {
        assert(v@.subrange(from as int, n as int).drop_last() =~= v@.subrange(from as int, n - 1));
        n -= 1;
    }
    n
}

/// The bounds of the file name in a path.
fn name_bounds(v: &Vec<char>) -> (r: Option<(usize, usize)>)
    ensures
        match r {
            Some((a, b)) => {
                &&& a <= b <= v.len()
                &&& v@.take(b as int) == settled(v@)
                &&& a == after_last(settled(v@), '/')
                &&& file_name_of(v@) == Some(v@.subrange(a as int, b as int))
            },
            None => file_name_of(v@) is None,
        },
{
    assert(v@.take(v@.len() as int) =~= v@);
    let b = settled_len(v, v.len());
    let a = behind_last(v, '/', 0, b);
    let ghost q = settled(v@);
    assert(v@.subrange(0, b as int) =~= v@.take(b as int));
    let ghost name = v@.subrange(a as int, b as int);
    assert(q.skip(a as int) =~= name);
    proof {
        if name.len() == 1 {
            assert(name == seq!['.'] <==> name[0] == '.') by {
                if name[0] == '.' {
                    assert(name =~= seq!['.']);
                }
            }
        }
        if name.len() == 2 {
            assert(name == seq!['.', '.'] <==> name[0] == '.' && name[1] == '.') by {
                if name[0] == '.' && name[1] == '.' {
                    assert(name =~= seq!['.', '.']);
                }
            }
        }
    }
    if a == b || (b - a == 1 && v[a] == '.') || (b - a == 2 && v[a] == '.' && v[a + 1] == '.') {
        None
    } else {
        Some((a, b))
    }
}

/// The last component, where it names a file.
pub fn file_name(p: &str) -> (r: Option<String>)
    ensures
        crate::text::opt_text(r) == file_name_of(p@),
{
    let v = chars(p);
    match name_bounds(&v) {
        Some((a, b)) => Some(slice(&v, a, b)),
        None => None,
    }
}

/// The extension of the file name.
pub fn extension(p: &str) -> (r: Option<String>)
    ensures
        crate::text::opt_text(r) == extension_of(p@),
{
    let v = chars(p);
    match name_bounds(&v) {
        Some((a, b)) => {
            let i = behind_last(&v, '.', a, b);
            let ghost name = v@.subrange(a as int, b as int);
            if i - a > 1 {
                assert(name.skip(i - a) =~= v@.subrange(i as int, b as int));
                Some(slice(&v, i, b))
            } else {
                None
            }
        },
        None => None,
    }
}

/// The file name without its extension.
pub fn file_stem(p: &str) -> (r: Option<String>)
    ensures
        crate::text::opt_text(r) == file_stem_of(p@),
{
    let v = chars(p);
    match name_bounds(&v) {
        Some((a, b)) => {
            let i = behind_last(&v, '.', a, b);
            let ghost name = v@.subrange(a as int, b as int);
            if i - a > 1 {
                assert(name.take(i - a - 1) =~= v@.subrange(a as int, i - 1));
                Some(slice(&v, a, i - 1))
            } else {
                Some(slice(&v, a, b))
            }
        },
        None => None,
    }
}

/// The path with another extension.
pub fn with_extension(p: &str, ext: &str) -> (r: String)
    ensures
        r@ == with_extension_of(p@, ext@),
{
    let v = chars(p);
    match name_bounds(&v) {
        Some((a, b)) => {
            let i = behind_last(&v, '.', a, b);
            let ghost name = v@.subrange(a as int, b as int);
            let end: usize = if i - a > 1 {
                i - 1
            } else {
                b
            };
            let mut out = slice(&v, 0, end);
            proof {
                let q = settled(v@);
                let stem = stem_of_name(name);
                assert(stem =~= v@.subrange(a as int, end as int));
                assert(out@ =~= q.take(a as int) + stem);
            }
            if !ext.is_empty() {
                out.push('.');
                out.append(ext);
                assert(out@ =~= with_extension_of(p@, ext@));
            }
            out
        },
        None => p.to_owned(),
    }
}

/// The path without its last component.
pub fn parent(p: &str) -> (r: Option<String>)
    ensures
        crate::text::opt_text(r) == parent_of(p@),
{
    let v = chars(p);
    assert(v@.take(v@.len() as int) =~= v@);
    let b = settled_len(&v, v.len());
    let ghost q = settled(v@);
    let a = behind_last(&v, '/', 0, b);
    assert(v@.subrange(0, b as int) =~= q);
    proof {
        if q.len() == 1 && q[0] == '/' {
            assert(q =~= seq!['/']);
        }
    }
    if b == 0 || (b == 1 && v[0] == '/') {
        return None;
    }
    if a == 0 {
        let s = String::new();
        assert(s@ =~= Seq::<char>::empty());
        return Some(s);
    }
    let n = settled_len(&v, a);
    assert(q.take(a as int) =~= v@.take(a as int));
    assert(v@.subrange(0, n as int) =~= v@.take(n as int));
    Some(slice(&v, 0, n))
}

/// `name` below `dir`.
pub fn join(dir: &str, name: &str) -> (r: String)
    ensures
        r@ == joined(dir@, name@),
{
    let d = chars(dir);
    let n = chars(name);
    if n.len() > 0 && n[0] == '/' {
        return name.to_owned();
    }
    let mut out = dir.to_owned();
    if d.len() > 0 && d[d.len() - 1] != '/' {
        out.push('/');
    }
    out.append(name);
    assert(out@ =~= joined(dir@, name@));
    out
}

} // verus!
