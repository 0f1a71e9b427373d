//! File system paths as text.

use crate::text;
use crate::text::{chars_of, ends_with, is_str, split, string_of};
use vstd::prelude::*;
use vstd::slice::slice_subrange;

verus! {

/// `a` extended by `b`: `b` itself where it is absolute, else the two with one
/// slash between them.
pub open spec fn joined(a: Seq<char>, b: Seq<char>) -> Seq<char> {
    if b.len() > 0 && b[0] == '/' {
        b
    } else if a.len() == 0 || a.last() == '/' {
        a + b
    } else {
        a + "/"@ + b
    }
}

/// Extends a path.
pub fn join(a: &str, b: &str) -> (r: String)
    ensures
        r@ == joined(a@, b@),
{
    let x = chars_of(a);
    let y = chars_of(b);
    if y.len() > 0 && y[0] == '/' {
        return b.to_owned();
    }
    let mut out = a.to_owned();
    if x.len() > 0 && x[x.len() - 1] != '/' {
        out.append("/");
    }
    out.append(b);
    out
}

/// The last of these components that names something: empty ones and `.` do
/// not count, and `..` names nothing.
pub open spec fn last_component(parts: Seq<Seq<char>>) -> Option<Seq<char>>
    decreases parts.len(),
{
    if parts.len() == 0 {
        None
    } else if parts.last().len() == 0 || parts.last() == "."@ {
        last_component(parts.drop_last())
    } else if parts.last() == ".."@ {
        None
    } else {
        Some(parts.last())
    }
}

/// The final component of a path.
pub open spec fn file_name_of(p: Seq<char>) -> Option<Seq<char>> {
    last_component(text::split_parts(p, '/'))
}

/// The final component of a path; `None` where it ends in `..` or names nothing.
pub fn file_name(p: &str) -> (r: Option<String>)
    ensures
        text::opt_text(r) == file_name_of(p@),
{
    let v = chars_of(p);
    let parts = split(v.as_slice(), '/');
    let mut n: usize = parts.len();
    let ghost all = text::slices(parts@);
    proof {
        assert(all.take(all.len() as int) =~= all);
    }
    while n > 0
        invariant
            n <= parts.len(),
            all == text::slices(parts@),
            all == text::split_parts(p@, '/'),
            last_component(all) == last_component(all.take(n as int)),
        decreases n,
    {
        let last = parts[n - 1];
        proof {
            assert(all.take(n as int).last() == last@);
            assert(all.take(n as int).drop_last() =~= all.take(n - 1));
        }
        if last.len() == 0 || is_str(last, ".") {
            n = n - 1;
        } else if is_str(last, "..") {
            return None;
        } else {
            return Some(string_of(last));
        }
    }
    None
}

/// Whether the final component has this extension: a dot that is not its first
/// character, and the extension behind it.
pub open spec fn has_extension(p: Seq<char>, dotted: Seq<char>) -> bool {
    match file_name_of(p) {
        Some(f) => text::finishes_with(f, dotted) && f.len() > dotted.len(),
        None => false,
    }
}

/// Whether the final component has this extension, given with its dot.
pub fn extension_is(p: &str, dotted: &str) -> (r: bool)
    ensures
        r == has_extension(p@, dotted@),
{
    match file_name(p) {
        Some(f) => {
            let v = chars_of(f.as_str());
            let d = chars_of(dotted);
            ends_with(v.as_slice(), dotted) && v.len() > d.len()
        },
        None => false,
    }
}

/// A path without what ends it and names nothing: slashes and `.` components.
/// The root stays, and so does a `.` that begins the path.
pub open spec fn cut(p: Seq<char>) -> Seq<char>
    decreases p.len(),
{
    if p.len() > 1 && p.last() == '/' {
        cut(p.drop_last())
    } else if p.len() > 1 && p.last() == '.' && p[p.len() - 2] == '/' {
        cut(p.drop_last())
    } else {
        p
    }
}

/// The length of a path up to and with its last slash.
pub open spec fn stem_len(p: Seq<char>) -> int
    decreases p.len(),
{
    if p.len() == 0 || p.last() == '/' {
        p.len() as int
    } else {
        stem_len(p.drop_last())
    }
}

/// A path without its final component, if there is one.
pub open spec fn parent_of(p: Seq<char>) -> Option<Seq<char>> {
    let c = cut(p);
    if c.len() == 0 || (c.len() == 1 && c[0] == '/') {
        None
    } else {
        Some(cut(c.take(stem_len(c))))
    }
}

fn cut_len(v: &[char], n: usize) -> (r: usize)
    requires
        n <= v@.len(),
    ensures
        r <= n,
        v@.take(r as int) == cut(v@.take(n as int)),
{
    let mut r: usize = n;
    while r > 1 && (v[r - 1] == '/' || (v[r - 1] == '.' && v[r - 2] == '/'))
        invariant
            r <= n <= v@.len(),
            cut(v@.take(n as int)) == cut(v@.take(r as int)),
        decreases r,
    {
        proof {
            assert(v@.take(r as int).drop_last() =~= v@.take(r - 1));
        }
        r = r - 1;
    }
    r
}

/// A path without its final component; `None` for the root and for the empty
/// path.
pub fn parent(p: &str) -> (r: Option<String>)
    ensures
        text::opt_text(r) == parent_of(p@),
{
    let chars = chars_of(p);
    let v = chars.as_slice();
    proof {
        assert(v@.take(v@.len() as int) =~= p@);
    }
    let n = cut_len(v, v.len());
    if n == 0 || (n == 1 && v[0] == '/') {
        return None;
    }
    let ghost c = v@.take(n as int);
    let mut k: usize = n;
    proof {
        assert(c.take(k as int) =~= c);
    }
    while k > 0 && v[k - 1] != '/'
        invariant
            k <= n <= v@.len(),
            c == v@.take(n as int),
            stem_len(c) == stem_len(c.take(k as int)),
        decreases k,
    {
        proof {
            assert(c.take(k as int).drop_last() =~= c.take(k - 1));
        }
        k = k - 1;
    }
    proof {
        assert(c.take(k as int) =~= v@.take(k as int));
    }
    let m = cut_len(v, k);
    proof {
        assert(v@.subrange(0, m as int) =~= v@.take(m as int));
    }
    Some(string_of(slice_subrange(v, 0, m)))
}

} // verus!
