use vstd::prelude::*;

use crate::text::{chars_of, string_of_range, trim, trim_bounds};

verus! {

pub open spec fn is_path_sep(c: char) -> bool {
    c == '/' || c == '\\'
}

/// Where the last component of `s[..j]` starts.
pub open spec fn name_start(s: Seq<char>, j: int) -> int
    decreases j,
{
    if 0 < j <= s.len() && !is_path_sep(s[j - 1]) {
        name_start(s, j - 1)
    } else {
        j
    }
}

/// The file name of a path: what follows its last separator.
pub open spec fn file_name(s: Seq<char>) -> Seq<char> {
    s.subrange(name_start(s, s.len() as int), s.len() as int)
}

/// The directory part of a path, with its trailing separator; empty for a
/// bare file name.
pub open spec fn dir_prefix(s: Seq<char>) -> Seq<char> {
    s.subrange(0, name_start(s, s.len() as int))
}

proof fn lemma_name_start(s: Seq<char>, j: int)
    requires
        0 <= j <= s.len(),
    ensures
        0 <= name_start(s, j) <= j,
        name_start(s, j) == 0 || is_path_sep(s[name_start(s, j) - 1]),
        forall|k: int| name_start(s, j) <= k < j ==> !is_path_sep(#[trigger] s[k]),
    decreases j,
{
    if 0 < j && !is_path_sep(s[j - 1]) {
        lemma_name_start(s, j - 1);
    }
}

/// A file name holds no separator; the directory part is empty or ends in one.
pub proof fn lemma_path_parts(s: Seq<char>)
    ensures
        dir_prefix(s) + file_name(s) == s,
        forall|k: int| 0 <= k < file_name(s).len() ==> !is_path_sep(#[trigger] file_name(s)[k]),
        dir_prefix(s).len() == 0 || is_path_sep(dir_prefix(s).last()),
{
    lemma_name_start(s, s.len() as int);
    let ns = name_start(s, s.len() as int);
    assert forall|k: int| 0 <= k < file_name(s).len() implies !is_path_sep(
        #[trigger] file_name(s)[k],
    ) by {
        assert(file_name(s)[k] == s[ns + k]);
    }
    assert(dir_prefix(s) + file_name(s) =~= s);
}

proof fn lemma_name_start_join_from(d: Seq<char>, n: Seq<char>, j: int)
    requires
        d.len() == 0 || is_path_sep(d.last()),
        forall|k: int| 0 <= k < n.len() ==> !is_path_sep(#[trigger] n[k]),
        d.len() <= j <= d.len() + n.len(),
    ensures
        name_start(d + n, j) == d.len(),
    decreases j,
{
    let x = d + n;
    if j > d.len() {
        assert(x[j - 1] == n[j - 1 - d.len()]);
        lemma_name_start_join_from(d, n, j - 1);
    } else if j > 0 {
        assert(x[j - 1] == d.last());
    }
}

/// A name without separators, put after a directory part, is the file name
/// of the result, and that directory part is its directory.
pub proof fn lemma_join_parts(d: Seq<char>, n: Seq<char>)
    requires
        d.len() == 0 || is_path_sep(d.last()),
        forall|k: int| 0 <= k < n.len() ==> !is_path_sep(#[trigger] n[k]),
    ensures
        dir_prefix(d + n) == d,
        file_name(d + n) == n,
{
    lemma_name_start_join_from(d, n, (d.len() + n.len()) as int);
    assert(dir_prefix(d + n) =~= d);
    assert(file_name(d + n) =~= n);
}

/// Index in `v` where its file name starts.
pub fn file_name_start(v: &Vec<char>) -> (r: usize)
    ensures
        r == name_start(v@, v@.len() as int),
        r <= v@.len(),
{
    let mut j = v.len();
    while j > 0 && v[j - 1] != '/' && v[j - 1] != '\\'
        invariant
            j <= v@.len(),
            name_start(v@, v@.len() as int) == name_start(v@, j as int),
        decreases j,
    {
        j = j - 1;
    }
    j
}

/// The input file argument without surrounding whitespace; `None` when
/// nothing is left.
pub fn input_path(arg: &str) -> (r: Option<String>)
    ensures
        r is None <==> trim(arg@).len() == 0,
        r is Some ==> r->0@ == trim(arg@),
{
    let v = chars_of(arg);
    let (a, b) = trim_bounds(&v, 0, v.len());
    assert(v@.subrange(0, v@.len() as int) =~= arg@);
    if a == b {
        None
    } else {
        Some(string_of_range(&v, a, b))
    }
}

} // verus!
