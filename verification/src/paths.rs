//! Local destination paths: separator normalization, joining a remote
//! location onto the local root directory, and the parent directory that
//! must exist before the file is written.

use vstd::prelude::*;
use crate::strings::{chars_of, string_of, append_str};

verus! {

/// `s` with every backslash replaced by a forward slash.
pub open spec fn normalized(s: Seq<char>) -> Seq<char> {
    s.map_values(|c: char| if c == '\\' { '/' } else { c })
}

/// The local destination for `loc` under the root `dir`:
/// `dir`, a slash, then the normalized location.
pub open spec fn dest_path_view(dir: Seq<char>, loc: Seq<char>) -> Seq<char> {
    dir + seq!['/'] + normalized(loc)
}

/// Index of the last slash strictly before position `i`, or -1 if there is
/// none.
pub open spec fn last_slash_before(p: Seq<char>, i: int) -> int
    decreases i,
{
    if i <= 0 {
        -1
    } else if p[i - 1] == '/' {
        i - 1
    } else {
        last_slash_before(p, i - 1)
    }
}

/// Everything before the last slash of `p`; `p` itself when it has no
/// slash.
pub open spec fn parent_of(p: Seq<char>) -> Seq<char> {
    let k = last_slash_before(p, p.len() as int);
    if k < 0 {
        p
    } else {
        p.take(k)
    }
}

/// Joins a remote location onto the local root: backslashes in the
/// location become forward slashes and the two parts are joined with a
/// single slash.
pub fn dest_path(dir: &str, loc: &str) -> (p: String)
    ensures
        p@ == dest_path_view(dir@, loc@),
{
    let mut out: Vec<char> = Vec::new();
    append_str(&mut out, dir);
    out.push('/');
    let lc = chars_of(loc);
    let mut i: usize = 0;
    proof {
        assert(out@ =~= dir@ + seq!['/'] + normalized(loc@.take(0)));
    }
    while i < lc.len()
        invariant
            i <= lc@.len(),
            lc@ == loc@,
            out@ == dir@ + seq!['/'] + normalized(loc@.take(i as int)),
        decreases lc@.len() - i,
    {
        let c = lc[i];
        if c == '\\' {
            out.push('/');
        } else {
            out.push(c);
        }
        proof {
            assert(dir@ + seq!['/'] + normalized(loc@.take(i + 1)) =~= (dir@ + seq!['/']
                + normalized(loc@.take(i as int))).push(
                if loc@[i as int] == '\\' {
                    '/'
                } else {
                    loc@[i as int]
                },
            ));
        }
        i = i + 1;
    }
    proof {
        assert(loc@.take(loc@.len() as int) =~= loc@);
    }
    string_of(&out)
}

/// The directory part of `p`: the characters before its last slash, or all
/// of `p` when it has no slash.
pub fn parent_dir(p: &str) -> (d: String)
    ensures
        d@ == parent_of(p@),
{
    let v = chars_of(p);
    let n = v.len();
    let mut i: usize = n;
    while i > 0 && v[i - 1] != '/'
        invariant
            i <= n,
            n == p@.len(),
            v@ == p@,
            last_slash_before(p@, n as int) == last_slash_before(p@, i as int),
        decreases i,
    {
        i = i - 1;
    }
    if i == 0 {
        let mut out: Vec<char> = Vec::new();
        append_str(&mut out, p);
        string_of(&out)
    } else {
        let mut out: Vec<char> = Vec::new();
        let mut j: usize = 0;
        proof {
            assert(out@ =~= p@.take(0));
        }
        while j < i - 1
            invariant
                j <= i - 1 < n,
                n == p@.len(),
                v@ == p@,
                out@ == p@.take(j as int),
            decreases i - j,
        {
            out.push(v[j]);
            proof {
                assert(p@.take(j + 1) =~= p@.take(j as int).push(p@[j as int]));
            }
            j = j + 1;
        }
        string_of(&out)
    }
}

} // verus!
