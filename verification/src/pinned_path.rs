//! Pinned paths: the directories workspaces claim, and which workspace
//! claims a pane's working directory.

use vstd::prelude::*;

use crate::text::{str_chars, string_from_chars, trim_chars, trimmed};


verus! {

/// The components of a path as std's `Path::components` yields them, each
/// taken as its text: a leading `/` is the root component, and repeated
/// separators and `.` components inside the path do not count.
pub uninterp spec fn path_components_of(path: Seq<char>) -> Seq<Seq<char>>;

/// The components of `path`, each as a string.
///
/// Trusted: calls `std::path::Path::components`, which std documents as
/// splitting a path into its components after normalising separators; what
/// it yields is left to the name `path_components_of`.
#[verifier::external_body]
fn path_components(path: &str) -> (r: Vec<String>)
    ensures
        texts(r@) == path_components_of(path@),
{
    std::path::Path::new(path).components().map(|c| c.as_os_str().to_string_lossy().into_owned()).collect()
}

/// The text of each string.
pub open spec fn texts(v: Seq<String>) -> Seq<Seq<char>> {
    v.map_values(|c: String| c@)
}

/// Whether `prefix` is a prefix of `s`.
pub open spec fn is_prefix_of<T>(prefix: Seq<T>, s: Seq<T>) -> bool {
    prefix.len() <= s.len() && s.subrange(0, prefix.len() as int) == prefix
}

/// Whether the directory `cwd` sits at or below `pinned`, compared a whole
/// component at a time.
pub open spec fn spec_path_claims(pinned: Seq<char>, cwd: Seq<char>) -> bool {
    is_prefix_of(path_components_of(pinned), path_components_of(cwd))
}

/// How deep a path is: its number of components.
pub open spec fn path_depth(path: Seq<char>) -> nat {
    path_components_of(path).len()
}

fn strings_equal(a: &String, b: &String) -> (r: bool)
    ensures
        r == (a@ == b@),
{
    a.eq(b)
}

/// Whether `cwd` sits at or below `pinned`. Compared component-wise so
/// `/ws-worktrees` is not treated as living under `/ws`. Both paths are
/// compared as given: callers resolve symlinks first where the paths exist.
pub fn path_claims(pinned: &str, cwd: &str) -> (r: bool)
    ensures
        r == spec_path_claims(pinned@, cwd@),
{
    let p = path_components(pinned);
    let c = path_components(cwd);
    let ghost ps = texts(p@);
    let ghost cs = texts(c@);
    if p.len() > c.len() {
        return false;
    }
    let mut i: usize = 0;
    while i < p.len()
        invariant
            p@.len() <= c@.len(),
            i <= p@.len(),
            ps == texts(p@),
            cs == texts(c@),
            ps == path_components_of(pinned@),
            cs == path_components_of(cwd@),
            forall|k: int| 0 <= k < i ==> ps[k] == cs[k],
        decreases p@.len() - i,
    {
        if !strings_equal(&p[i], &c[i]) {
            assert(ps[i as int] == p@[i as int]@ && cs[i as int] == c@[i as int]@);
            assert(cs.subrange(0, ps.len() as int)[i as int] != ps[i as int]);
            return false;
        }
        assert(ps[i as int] == p@[i as int]@ && cs[i as int] == c@[i as int]@);
        i += 1;
    }
    assert(cs.subrange(0, ps.len() as int) =~= ps);
    true
}

/// The number of components of `path`.
pub fn path_depth_of(path: &str) -> (r: usize)
    ensures
        r == path_depth(path@),
{
    path_components(path).len()
}

/// Whether two paths name the same components.
pub fn same_path(a: &str, b: &str) -> (r: bool)
    ensures
        r == (path_components_of(a@) == path_components_of(b@)),
{
    let p = path_components(a);
    let q = path_components(b);
    let ghost ps = texts(p@);
    let ghost qs = texts(q@);
    if p.len() != q.len() {
        assert(ps.len() != qs.len());
        return false;
    }
    let mut i: usize = 0;
    while i < p.len()
        invariant
            p@.len() == q@.len(),
            i <= p@.len(),
            ps == texts(p@),
            qs == texts(q@),
            ps == path_components_of(a@),
            qs == path_components_of(b@),
            forall|k: int| 0 <= k < i ==> ps[k] == qs[k],
        decreases p@.len() - i,
    {
        if !strings_equal(&p[i], &q[i]) {
            assert(ps[i as int] == p@[i as int]@ && qs[i as int] == q@[i as int]@);
            assert(ps[i as int] != qs[i as int]);
            return false;
        }
        assert(ps[i as int] == p@[i as int]@ && qs[i as int] == q@[i as int]@);
        i += 1;
    }
    assert(ps =~= qs);
    true
}

/// The pin a workspace should end up with when the user toggles it against
/// `cwd`: `None` clears the pin, which is what a second press at the same
/// directory means. `current_resolved` and `cwd_resolved` are the current
/// pin and `cwd` with symlinks resolved where they exist, so a pin entered
/// through a symlink still toggles off.
pub fn toggled_pin(current_resolved: Option<&str>, cwd_resolved: &str, cwd: &str) -> (r: Option<String>)
    ensures
        r is None <==> (current_resolved is Some && path_components_of(current_resolved->0@)
            == path_components_of(cwd_resolved@)),
        r matches Some(s) ==> s@ == cwd@,
{
    let already_pinned_here = match current_resolved {
        Some(pinned) => same_path(pinned, cwd_resolved),
        None => false,
    };
    if already_pinned_here {
        None
    } else {
        Some(String::from_str(cwd))
    }
}

/// `path` appended to `base` the way std's `PathBuf::join` does on Unix:
/// an absolute `path` replaces `base`, otherwise a `/` goes between them
/// unless `base` is empty or already ends with one.
pub open spec fn join_path(base: Seq<char>, path: Seq<char>) -> Seq<char> {
    if path.len() > 0 && path[0] == '/' {
        path
    } else if base.len() > 0 && base.last() != '/' {
        base + seq!['/'] + path
    } else {
        base + path
    }
}

/// `s` without its leading `/` characters.
pub open spec fn trim_leading_slashes(s: Seq<char>) -> Seq<char>
    decreases s.len(),
{
    if s.len() > 0 && s[0] == '/' {
        trim_leading_slashes(s.drop_first())
    } else {
        s
    }
}

/// The absolute path `expand_pinned_path` makes of `raw`, given the home
/// directory and the current directory when they are known: surrounding
/// whitespace goes, a leading `~` (alone or before `/`) stands for the home
/// directory, and a relative path is taken from the current directory.
pub open spec fn expanded_path(raw: Seq<char>, home: Option<Seq<char>>, cwd: Option<Seq<char>>) -> Seq<char> {
    let t = trimmed(raw);
    let expanded = if t.len() > 0 && t[0] == '~' && (t.len() == 1 || t[1] == '/') {
        match home {
            Some(h) => join_path(h, trim_leading_slashes(t.drop_first())),
            None => t,
        }
    } else {
        t
    };
    if expanded.len() > 0 && expanded[0] == '/' {
        expanded
    } else {
        match cwd {
            Some(c) => join_path(c, expanded),
            None => expanded,
        }
    }
}

fn join_chars(base: &[char], path: &[char]) -> (r: Vec<char>)
    ensures
        r@ == join_path(base@, path@),
{
    let mut out: Vec<char> = Vec::new();
    if !(path.len() > 0 && path[0] == '/') {
        let mut i: usize = 0;
        while i < base.len()
            invariant
                i <= base@.len(),
                out@ == base@.subrange(0, i as int),
            decreases base@.len() - i,
        {
            out.push(base[i]);
            i += 1;
            assert(out@ =~= base@.subrange(0, i as int));
        }
        assert(out@ =~= base@);
        if base.len() > 0 && base[base.len() - 1] != '/' {
            out.push('/');
        }
    }
    let ghost lead = out@;
    let mut j: usize = 0;
    while j < path.len()
        invariant
            j <= path@.len(),
            out@ == lead + path@.subrange(0, j as int),
        decreases path@.len() - j,
    {
        out.push(path[j]);
        j += 1;
        assert(out@ =~= lead + path@.subrange(0, j as int));
    }
    assert(path@.subrange(0, path@.len() as int) =~= path@);
    assert(Seq::<char>::empty() + path@ =~= path@);
    out
}

/// Expand a user-entered path into an absolute one, given the home
/// directory and the current directory when they are known. The directory
/// need not exist: a pinned path may point at a repo you have not cloned
/// yet.
pub fn expand_pinned_path(raw: &str, home: Option<&str>, cwd: Option<&str>) -> (r: String)
    ensures
        r@ == expanded_path(
            raw@,
            match home {
                Some(h) => Some(h@),
                None => None,
            },
            match cwd {
                Some(c) => Some(c@),
                None => None,
            },
        ),
{
    let raw_chars = str_chars(raw);
    let t = trim_chars(raw_chars.as_slice());
    let tilde = t.len() > 0 && t[0] == '~' && (t.len() == 1 || t[1] == '/');
    let expanded: Vec<char> = if tilde {
        match home {
            Some(h) => {
                let mut k: usize = 1;
                assert(t@.drop_first() =~= t@.subrange(1, t@.len() as int));
                while k < t.len() && t[k] == '/'
                    invariant
                        1 <= k <= t@.len(),
                        trim_leading_slashes(t@.drop_first()) == trim_leading_slashes(t@.subrange(
                            k as int,
                            t@.len() as int,
                        )),
                    decreases t@.len() - k,
                {
                    assert(t@.subrange(k as int, t@.len() as int).drop_first() =~= t@.subrange(
                        k + 1,
                        t@.len() as int,
                    ));
                    k += 1;
                }
                let (_, rest) = t.as_slice().split_at(k);
                let home_chars = str_chars(h);
                join_chars(home_chars.as_slice(), rest)
            },
            None => t,
        }
    } else {
        t
    };
    if expanded.len() > 0 && expanded[0] == '/' {
        return string_from_chars(expanded.as_slice());
    }
    match cwd {
        Some(c) => {
            let cwd_chars = str_chars(c);
            let joined = join_chars(cwd_chars.as_slice(), expanded.as_slice());
            string_from_chars(joined.as_slice())
        },
        None => string_from_chars(expanded.as_slice()),
    }
}

/// A pinned path claims its own directory.
pub proof fn lemma_a_pin_claims_its_own_directory(pinned: Seq<char>)
    ensures
        spec_path_claims(pinned, pinned),
{
    let c = path_components_of(pinned);
    assert(c.subrange(0, c.len() as int) =~= c);
}

/// What a pin claims, a pin above it claims too.
pub proof fn lemma_claims_pass_down(outer: Seq<char>, inner: Seq<char>, cwd: Seq<char>)
    requires
        spec_path_claims(outer, inner),
        spec_path_claims(inner, cwd),
    ensures
        spec_path_claims(outer, cwd),
{
    let a = path_components_of(outer);
    let b = path_components_of(inner);
    let c = path_components_of(cwd);
    assert(c.subrange(0, a.len() as int) =~= c.subrange(0, b.len() as int).subrange(0, a.len() as int));
}

/// Two paths that claim each other are the same directory: a pin never
/// claims a directory above it.
pub proof fn lemma_claims_both_ways_means_same_path(a: Seq<char>, b: Seq<char>)
    requires
        spec_path_claims(a, b),
        spec_path_claims(b, a),
    ensures
        path_components_of(a) == path_components_of(b),
{
    let x = path_components_of(a);
    let y = path_components_of(b);
    assert(x.len() == y.len());
    assert(y.subrange(0, x.len() as int) =~= y);
}

/// A pin claims only directories at least as deep as itself.
pub proof fn lemma_claimed_directories_are_no_shallower(pinned: Seq<char>, cwd: Seq<char>)
    requires
        spec_path_claims(pinned, cwd),
    ensures
        path_depth(pinned) <= path_depth(cwd),
{
}

} // verus!
