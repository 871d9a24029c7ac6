use vstd::prelude::*;
use vstd::string::StrSliceExecFns;
use vstd::string::StringExecFns;

verus! {

/// Character-for-character equality of two string slices.
pub fn str_eq(a: &str, b: &str) -> (r: bool)
    ensures
        r == (a@ == b@),
{
    let an = a.unicode_len();
    let bn = b.unicode_len();
    if an != bn {
        return false;
    }
    let mut i: usize = 0;
    while i < an
        invariant
            an == a@.len(),
            bn == b@.len(),
            an == bn,
            i <= an,
            forall|j: int| 0 <= j < i ==> a@[j] == b@[j],
        decreases an - i,
    {
        if a.get_char(i) != b.get_char(i) {
            return false;
        }
        i += 1;
    }
    assert(a@ =~= b@);
    true
}

/// Index of the last `/` in `s`, or `-1` when `s` has none.
pub open spec fn last_slash_idx(s: Seq<char>) -> int
    decreases s.len(),
{
    if s.len() == 0 {
        -1
    } else if s[s.len() - 1] == '/' {
        s.len() - 1
    } else {
        last_slash_idx(s.drop_last())
    }
}

/// The directory part of a path: everything before the last `/`,
/// or the empty string when the path has no `/`.
pub open spec fn parent_dir_spec(s: Seq<char>) -> Seq<char> {
    if last_slash_idx(s) < 0 {
        Seq::empty()
    } else {
        s.subrange(0, last_slash_idx(s))
    }
}

pub proof fn lemma_last_slash(s: Seq<char>)
    ensures
        -1 <= last_slash_idx(s) < s.len(),
        last_slash_idx(s) >= 0 ==> s[last_slash_idx(s)] == '/',
        forall|j: int| last_slash_idx(s) < j < s.len() ==> s[j] != '/',
    decreases s.len(),
{
    if s.len() > 0 && s[s.len() - 1] != '/' {
        lemma_last_slash(s.drop_last());
        assert forall|j: int| last_slash_idx(s) < j < s.len() implies s[j] != '/' by {
            if j < s.len() - 1 {
                assert(s.drop_last()[j] != '/');
            }
        }
    }
}

/// The directory part of a path, as the original's `Path::parent` gave it
/// for the absolute paths the pipeline builds.
pub fn parent_dir(path: &str) -> (r: String)
    ensures
        r@ == parent_dir_spec(path@),
{
    let n = path.unicode_len();
    let mut i: usize = n;
    while i > 0
        invariant
            i <= n,
            n == path@.len(),
            forall|j: int| i <= j < n ==> path@[j] != '/',
        decreases i,
    {
        if path.get_char(i - 1) == '/' {
            proof {
                lemma_last_slash(path@);
            }
            assert(last_slash_idx(path@) == i - 1);
            return path.substring_char(0, i - 1).to_owned();
        }
        i -= 1;
    }
    proof {
        lemma_last_slash(path@);
        reveal_strlit("");
        assert(""@ =~= Seq::<char>::empty());
    }
    assert(last_slash_idx(path@) < 0);
    "".to_owned()
}

/// `dir` and `name` joined by a single `/`.
pub fn join_under(dir: &str, name: &str) -> (r: String)
    ensures
        r@ == dir@ + "/"@ + name@,
{
    let mut s = dir.to_owned();
    s.append("/");
    s.append(name);
    s
}

} // verus!
