use vstd::prelude::*;

use crate::paths::{
    dir_prefix, file_name, file_name_start, is_path_sep, lemma_join_parts, lemma_path_parts,
};
use crate::text::{chars_of, push_all_str, push_char, push_range};

verus! {

/// What the command line asked for, once its conflicts are resolved.
#[derive(Debug, Clone)]
pub enum SaveRequest {
    /// No save.
    Nothing,
    /// Save to this explicit output path.
    Output(String),
    /// Save, to the given path if any; otherwise to a derived name.
    Save(Option<String>),
}

impl SaveRequest {
    /// The request that the command line's optional output path and optional
    /// save option make; the save option takes precedence.
    pub fn from_args(output: Option<String>, save: Option<Option<String>>) -> (r: SaveRequest)
        ensures
            r == (match save {
                Some(p) => SaveRequest::Save(p),
                None => match output {
                    Some(o) => SaveRequest::Output(o),
                    None => SaveRequest::Nothing,
                },
            }),
    {
        match save {
            Some(p) => SaveRequest::Save(p),
            None => match output {
                Some(o) => SaveRequest::Output(o),
                None => SaveRequest::Nothing,
            },
        }
    }
}

/// A write that the caller is to perform.
#[derive(Debug, Clone)]
pub struct SavePlan {
    pub path: String,
    /// The target's directory is missing and must be created first.
    pub create_parent: bool,
    /// An existing file is replaced.
    pub overwrite: bool,
}

#[derive(Debug, Clone)]
pub enum PersistenceError {
    /// The target exists and overwriting was not allowed.
    AlreadyExists(String),
    /// Creating the directory or writing the file failed.
    Io(String),
}

/// Index just past the last `.` in `s[..j]`, or 0 if there is none.
pub open spec fn after_last_dot(s: Seq<char>, j: int) -> int
    decreases j,
{
    if 0 < j <= s.len() && s[j - 1] != '.' {
        after_last_dot(s, j - 1)
    } else {
        j
    }
}

/// A file name without its extension. A name whose only dot leads it has none.
pub open spec fn stem(name: Seq<char>) -> Seq<char> {
    let k = after_last_dot(name, name.len() as int);
    if k > 1 {
        name.subrange(0, k - 1)
    } else {
        name
    }
}

pub open spec fn output_suffix() -> Seq<char> {
    seq!['-', 'f', 'o', 'r', 'm', 'a', 't', 't', 'e', 'd', '.', 't', 'x', 't']
}

/// The name of the formatted copy of the file called `name`.
pub open spec fn derived_name(name: Seq<char>) -> Seq<char> {
    stem(name) + output_suffix()
}

/// `name` placed in directory `dir`.
pub open spec fn join_path(dir: Seq<char>, name: Seq<char>) -> Seq<char> {
    if dir.len() == 0 || is_path_sep(dir.last()) {
        dir + name
    } else {
        dir.push('/') + name
    }
}

/// Where a save request writes, for the playlist read from `source`.
pub open spec fn resolve_spec(
    request: SaveRequest,
    use_default_dir: bool,
    source: Seq<char>,
    default_dir: Seq<char>,
) -> Option<Seq<char>> {
    match request {
        SaveRequest::Nothing => None,
        SaveRequest::Output(p) => Some(p@),
        SaveRequest::Save(Some(p)) if p@.len() > 0 => Some(p@),
        SaveRequest::Save(_) => if use_default_dir {
            Some(join_path(default_dir, derived_name(file_name(source))))
        } else {
            Some(dir_prefix(source) + derived_name(file_name(source)))
        },
    }
}

proof fn lemma_after_last_dot(s: Seq<char>, j: int)
    requires
        0 <= j <= s.len(),
    ensures
        0 <= after_last_dot(s, j) <= j,
    decreases j,
{
    if 0 < j && s[j - 1] != '.' {
        lemma_after_last_dot(s, j - 1);
    }
}

proof fn lemma_derived_name_plain(source: Seq<char>)
    ensures
        forall|k: int|
            0 <= k < derived_name(file_name(source)).len() ==> !is_path_sep(
                #[trigger] derived_name(file_name(source))[k],
            ),
{
    lemma_path_parts(source);
    let name = file_name(source);
    let st = stem(name);
    let r = derived_name(name);
    lemma_after_last_dot(name, name.len() as int);
    assert forall|k: int| 0 <= k < r.len() implies !is_path_sep(#[trigger] r[k]) by {
        if k < st.len() {
            assert(r[k] == name[k]);
        } else {
            assert(r[k] == output_suffix()[k - st.len()]);
        }
    }
}

/// A save with no path and without the default directory writes beside the
/// source: the target's directory is the source's, and its file name is the
/// one derived from the source's file name.
pub proof fn lemma_save_beside_source(
    request: SaveRequest,
    source: Seq<char>,
    default_dir: Seq<char>,
)
    requires
        request matches SaveRequest::Save(p) && (p is None || p->0@.len() == 0),
    ensures
        resolve_spec(request, false, source, default_dir) is Some,
        dir_prefix(resolve_spec(request, false, source, default_dir)->0) == dir_prefix(source),
        file_name(resolve_spec(request, false, source, default_dir)->0) == derived_name(
            file_name(source),
        ),
{
    lemma_path_parts(source);
    lemma_derived_name_plain(source);
    lemma_join_parts(dir_prefix(source), derived_name(file_name(source)));
}

/// The name that a save without a path gives the formatted copy of `source`.
pub fn derive_file_name(source: &str) -> (r: String)
    ensures
        r@ == derived_name(file_name(source@)),
{
    let v = chars_of(source);
    let start = file_name_start(&v);
    let ghost name = v@.subrange(start as int, v@.len() as int);
    let mut k = v.len();
    while k > start && v[k - 1] != '.'
        invariant
            start <= k <= v@.len(),
            name == v@.subrange(start as int, v@.len() as int),
            after_last_dot(name, name.len() as int) == after_last_dot(name, k - start),
        decreases k,
    {
        k = k - 1;
    }
    let end = if k - start > 1 {
        k - 1
    } else {
        v.len()
    };
    let mut r = String::new();
    push_range(&mut r, &v, start, end);
    proof {
        reveal_strlit("-formatted.txt");
    }
    push_all_str(&mut r, "-formatted.txt");
    assert(r@ =~= derived_name(file_name(source@)));
    r
}

/// Resolves where `request` saves the playlist read from `source`; `None`
/// when nothing is to be saved.
///
/// An explicit path is used as given. Without one the formatted copy gets a
/// name derived from the source's, in `default_dir` when `use_default_dir`
/// is set and beside the source otherwise.
pub fn resolve_target(request: &SaveRequest, use_default_dir: bool, source: &str, default_dir: &str) -> (r: Option<String>)
    ensures
        (match r {
            Some(s) => Some(s@),
            None => None,
        }) == resolve_spec(*request, use_default_dir, source@, default_dir@),
{
    match request {
        SaveRequest::Nothing => None,
        SaveRequest::Output(p) => Some(p.clone()),
        SaveRequest::Save(Some(p)) if !p.as_str().is_empty() => {
            Some(p.clone())
        },
        SaveRequest::Save(_) => {
            let name = derive_file_name(source);
            if use_default_dir {
                let d = chars_of(default_dir);
                let mut s = String::new();
                push_range(&mut s, &d, 0, d.len());
                if d.len() > 0 && d[d.len() - 1] != '/' && d[d.len() - 1] != '\\' {
                    push_char(&mut s, '/');
                }
                push_all_str(&mut s, name.as_str());
                assert(d@.subrange(0, d@.len() as int) =~= d@);
                assert(s@ =~= join_path(default_dir@, name@));
                Some(s)
            } else {
                let v = chars_of(source);
                let start = file_name_start(&v);
                let mut s = String::new();
                push_range(&mut s, &v, 0, start);
                push_all_str(&mut s, name.as_str());
                Some(s)
            }
        },
    }
}

/// Decides whether and how to write to `target`.
///
/// An existing file is replaced only when `force` is set; otherwise the
/// result is a conflict that names the target and no write is planned.
pub fn plan_save(target: &str, exists: bool, parent_exists: bool, force: bool) -> (r: Result<SavePlan, PersistenceError>)
    ensures
        (exists && !force) <==> r is Err,
        r is Err ==> (match r {
            Err(PersistenceError::AlreadyExists(p)) => p@ == target@,
            _ => false,
        }),
        r is Ok ==> (match r {
            Ok(plan) => plan.path@ == target@ && plan.create_parent == !parent_exists
                && plan.overwrite == exists,
            _ => false,
        }),
{
    let path = String::from_str(target);
    if exists && !force {
        Err(PersistenceError::AlreadyExists(path))
    } else {
        Ok(SavePlan { path, create_parent: !parent_exists, overwrite: exists })
    }
}

} // verus!
