//! Verified text manipulation of file paths.
//!
//! Paths are handled as plain `/`-separated text: the file name is what
//! follows the last separator, the stem is the name short of its last
//! extension (a lone leading dot marks a hidden name, not an extension).

use vstd::prelude::*;
use vstd::string::StrSliceExecFns;

verus! {

/// The index just after the last `/`, or zero.
pub open spec fn spec_name_start(path: Seq<char>) -> int
    decreases path.len(),
{
    if path.len() == 0 {
        0int
    } else if path.last() == '/' {
        path.len() as int
    } else {
        spec_name_start(path.drop_last())
    }
}

/// The file-name part of a path: everything after the last `/`.
pub open spec fn spec_file_name(path: Seq<char>) -> Seq<char> {
    path.skip(spec_name_start(path))
}

/// The directory part of a path: everything before the last `/`, without
/// the separator itself; empty when there is none.
pub open spec fn spec_parent(path: Seq<char>) -> Seq<char> {
    let s = spec_name_start(path);
    if s == 0 {
        Seq::empty()
    } else {
        path.take(s - 1)
    }
}

/// Where a name's extension begins (the position of its last dot), or
/// the name's length when it has none.  A dot in first position marks a
/// hidden name and counts as no extension by itself.
pub open spec fn spec_ext_dot(name: Seq<char>) -> int
    decreases name.len(),
{
    if name.len() <= 1 {
        name.len() as int
    } else if name.last() == '.' {
        name.len() - 1
    } else {
        let inner = spec_ext_dot(name.drop_last());
        if inner == name.len() - 1 {
            name.len() as int
        } else {
            inner
        }
    }
}

/// The stem of a file name: the name short of its last extension.
pub open spec fn spec_stem(name: Seq<char>) -> Seq<char> {
    name.take(spec_ext_dot(name))
}

/// The extension of a file name, without its dot; empty when none.
pub open spec fn spec_extension(name: Seq<char>) -> Seq<char> {
    if spec_ext_dot(name) == name.len() {
        Seq::empty()
    } else {
        name.skip(spec_ext_dot(name) + 1)
    }
}

/// The last-dot position lies within the name, never at the start.
pub proof fn lemma_ext_dot_bounds(name: Seq<char>)
    ensures
        1 <= spec_ext_dot(name) <= name.len() || name.len() == 0 && spec_ext_dot(name) == 0,
    decreases name.len(),
{
    if name.len() > 1 && name.last() != '.' {
        lemma_ext_dot_bounds(name.drop_last());
    }
}

/// The start of the file name lies within the path.
pub proof fn lemma_name_start_bounds(path: Seq<char>)
    ensures
        0 <= spec_name_start(path) <= path.len(),
    decreases path.len(),
{
    if path.len() > 0 && path.last() != '/' {
        lemma_name_start_bounds(path.drop_last());
    }
}

/// The file-name part of a path.
pub fn file_name_of(path: &str) -> (r: String)
    ensures
        r@ == spec_file_name(path@),
{
    proof {
        lemma_name_start_bounds(path@);
        assert(path@.take(path@.len() as int) =~= path@);
    }
    let n = path.unicode_len();
    let mut i: usize = n;
    while i > 0
        invariant
            i <= n,
            n == path@.len(),
            spec_name_start(path@) == spec_name_start(path@.take(i as int)),
            spec_name_start(path@.take(i as int)) <= i,
        decreases i,
    {
        proof {
            lemma_name_start_bounds(path@.take(i as int));
            lemma_name_start_bounds(path@.take(i as int - 1));
        }
        let c = path.get_char(i - 1);
        proof {
            let cur = path@.take(i as int);
            assert(cur.last() == path@[i - 1]);
            assert(cur.drop_last() =~= path@.take(i as int - 1));
        }
        if c == '/' {
            let r = path.substring_char(i, n).to_owned();
            proof {
                assert(spec_name_start(path@.take(i as int)) == i);
                assert(r@ =~= spec_file_name(path@));
            }
            return r;
        }
        i -= 1;
    }
    proof {
        assert(path@.take(0) =~= Seq::<char>::empty());
        assert(spec_name_start(path@) == 0);
    }
    let r = path.to_owned();
    proof {
        assert(r@ =~= spec_file_name(path@));
    }
    r
}

/// The directory part of a path; empty when the path has no separator.
pub fn parent_of(path: &str) -> (r: String)
    ensures
        r@ == spec_parent(path@),
{
    proof {
        lemma_name_start_bounds(path@);
        assert(path@.take(path@.len() as int) =~= path@);
    }
    let n = path.unicode_len();
    let mut i: usize = n;
    while i > 0
        invariant
            i <= n,
            n == path@.len(),
            spec_name_start(path@) == spec_name_start(path@.take(i as int)),
            spec_name_start(path@.take(i as int)) <= i,
        decreases i,
    {
        proof {
            lemma_name_start_bounds(path@.take(i as int));
            lemma_name_start_bounds(path@.take(i as int - 1));
        }
        let c = path.get_char(i - 1);
        proof {
            let cur = path@.take(i as int);
            assert(cur.last() == path@[i - 1]);
            assert(cur.drop_last() =~= path@.take(i as int - 1));
        }
        if c == '/' {
            let r = path.substring_char(0, i - 1).to_owned();
            proof {
                assert(spec_name_start(path@.take(i as int)) == i);
                assert(r@ =~= spec_parent(path@));
            }
            return r;
        }
        i -= 1;
    }
    proof {
        assert(path@.take(0) =~= Seq::<char>::empty());
        assert(spec_name_start(path@) == 0);
        assert(Seq::<char>::empty() =~= spec_parent(path@));
    }
    String::new()
}

/// The stem of a file name: the name short of its last extension.
pub fn stem_of(name: &str) -> (r: String)
    ensures
        r@ == spec_stem(name@),
{
    let dot = ext_dot_of(name);
    let r = name.substring_char(0, dot).to_owned();
    proof {
        assert(r@ =~= spec_stem(name@));
    }
    r
}

/// The extension of a file name, without its dot; empty when none.
pub fn extension_of(name: &str) -> (r: String)
    ensures
        r@ == spec_extension(name@),
{
    proof {
        lemma_ext_dot_bounds(name@);
    }
    let n = name.unicode_len();
    let dot = ext_dot_of(name);
    if dot == n {
        proof {
            assert(Seq::<char>::empty() =~= spec_extension(name@));
        }
        String::new()
    } else {
        let r = name.substring_char(dot + 1, n).to_owned();
        proof {
            assert(r@ =~= spec_extension(name@));
        }
        r
    }
}

/// The position of a name's extension dot, or its length.
fn ext_dot_of(name: &str) -> (r: usize)
    ensures
        r as int == spec_ext_dot(name@),
        r <= name@.len(),
{
    proof {
        lemma_ext_dot_bounds(name@);
        assert(name@.take(name@.len() as int) =~= name@);
    }
    let n = name.unicode_len();
    let mut i: usize = n;
    while i > 1
        invariant
            i <= n,
            n == name@.len(),
            n > 1 ==> i >= 1,
            spec_ext_dot(name@) == (if spec_ext_dot(name@.take(i as int)) == i {
                n as int
            } else {
                spec_ext_dot(name@.take(i as int))
            }),
            spec_ext_dot(name@.take(i as int)) == i || spec_ext_dot(name@.take(i as int))
                < i,
        decreases i,
    {
        proof {
            lemma_ext_dot_bounds(name@.take(i as int));
            lemma_ext_dot_bounds(name@.take(i as int - 1));
            let cur = name@.take(i as int);
            assert(cur.last() == name@[i - 1]);
            assert(cur.drop_last() =~= name@.take(i as int - 1));
            assert(cur.len() == i);
            assert(name@.take(i as int - 1).len() == i - 1);
        }
        let c = name.get_char(i - 1);
        if c == '.' {
            proof {
                assert(spec_ext_dot(name@.take(i as int)) == i - 1);
            }
            if i - 1 == n {
                return n;
            }
            return i - 1;
        }
        i -= 1;
    }
    proof {
        if n > 1 {
            assert(spec_ext_dot(name@.take(1)) <= 1);
            lemma_ext_dot_bounds(name@.take(1));
            assert(name@.take(1).len() == 1);
            assert(spec_ext_dot(name@.take(1)) == 1);
            assert(spec_ext_dot(name@) == n);
        } else {
            assert(name@.take(n as int) =~= name@);
        }
    }
    n
}

} // verus!
