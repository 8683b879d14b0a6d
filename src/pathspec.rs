use vstd::prelude::*;
use vstd::string::StrSliceExecFns;
use crate::error::{Error, PathSpecError};

verus! {

/// Pattern `p` covers `path` when it names the path itself or a directory
/// above it.
pub open spec fn covers(p: Seq<char>, path: Seq<char>) -> bool {
    path == p || (path.len() > p.len() && path.subrange(0, p.len() as int) == p && path[p.len() as int]
        == '/')
}

pub open spec fn any_covers(ps: Seq<Seq<char>>, path: Seq<char>) -> bool {
    exists|i: int| 0 <= i < ps.len() && covers(#[trigger] ps[i], path)
}

pub open spec fn texts(v: Seq<String>) -> Seq<Seq<char>> {
    v.map_values(|s: String| s@)
}

pub open spec fn pattern_ok(p: Seq<char>) -> bool {
    p.len() > 0 && p[0] != '/'
}

/// A path filter: a path passes when some included pattern covers it (or
/// none is given) and no excluded pattern does.
pub struct PathSpec {
    includes: Vec<String>,
    excludes: Vec<String>,
}

pub struct PathSpecView {
    pub includes: Seq<Seq<char>>,
    pub excludes: Seq<Seq<char>>,
}

impl View for PathSpec {
    type V = PathSpecView;

    closed spec fn view(&self) -> PathSpecView {
        PathSpecView { includes: texts(self.includes@), excludes: texts(self.excludes@) }
    }
}

impl PathSpecView {
    pub open spec fn accepts(self, path: Seq<char>) -> bool {
        (self.includes.len() == 0 || any_covers(self.includes, path)) && !any_covers(
            self.excludes,
            path,
        )
    }
}

fn check_patterns(ps: &Vec<String>) -> (r: Result<(), Error>)
    ensures
        r is Ok <==> forall|i: int| 0 <= i < ps@.len() ==> pattern_ok(#[trigger] ps@[i]@),
        r matches Err(e) ==> e matches Error::PathSpec(_),
{
    let mut i: usize = 0;
    while i < ps.len()
        invariant
            i <= ps@.len(),
            forall|j: int| 0 <= j < i ==> pattern_ok(#[trigger] ps@[j]@),
        decreases ps@.len() - i,
    {
        let p = ps[i].as_str();
        if p.unicode_len() == 0 {
            return Err(Error::PathSpec(PathSpecError::EmptyPattern));
        }
        if p.get_char(0) == '/' {
            return Err(Error::PathSpec(PathSpecError::AbsolutePattern));
        }
        i = i + 1;
    }
    Ok(())
}

fn covers_exec(p: &str, path: &str) -> (r: bool)
    ensures
        r == covers(p@, path@),
{
    let n = p.unicode_len();
    let m = path.unicode_len();
    if m < n {
        return false;
    }
    let mut i: usize = 0;
    while i < n
        invariant
            n == p@.len(),
            m == path@.len(),
            n <= m,
            i <= n,
            forall|j: int| 0 <= j < i ==> p@[j] == path@[j],
        decreases n - i,
    {
        if p.get_char(i) != path.get_char(i) {
            return false;
        }
        i = i + 1;
    }
    assert(path@.subrange(0, n as int) =~= p@);
    if m == n {
        assert(path@ =~= p@);
        true
    } else {
        path.get_char(n) == '/'
    }
}

fn any_covers_exec(ps: &Vec<String>, path: &str) -> (r: bool)
    ensures
        r == any_covers(texts(ps@), path@),
{
    let mut i: usize = 0;
    while i < ps.len()
        invariant
            i <= ps@.len(),
            forall|j: int| 0 <= j < i ==> !covers(#[trigger] ps@[j]@, path@),
        decreases ps@.len() - i,
    {
        if covers_exec(ps[i].as_str(), path) {
            assert(texts(ps@)[i as int] == ps@[i as int]@);
            return true;
        }
        i = i + 1;
    }
    proof {
        if any_covers(texts(ps@), path@) {
            let j = choose|j: int| 0 <= j < texts(ps@).len() && covers(#[trigger] texts(ps@)[j], path@);
            assert(texts(ps@)[j] == ps@[j]@);
        }
    }
    false
}

impl PathSpec {
    /// Compile a filter from included and excluded patterns. Patterns are
    /// relative paths; an empty or absolute one is refused.
    pub fn new(includes: Vec<String>, excludes: Vec<String>) -> (r: Result<PathSpec, Error>)
        ensures
            r is Ok <==> (forall|i: int| 0 <= i < includes@.len() ==> pattern_ok(#[trigger] includes@[i]@))
                && (forall|i: int| 0 <= i < excludes@.len() ==> pattern_ok(#[trigger] excludes@[i]@)),
            r matches Ok(s) ==> s@.includes == texts(includes@) && s@.excludes == texts(excludes@),
            r matches Err(e) ==> e matches Error::PathSpec(_),
    {
        match check_patterns(&includes) {
            Ok(()) => {},
            Err(e) => {
                return Err(e);
            },
        }
        match check_patterns(&excludes) {
            Ok(()) => {},
            Err(e) => {
                return Err(e);
            },
        }
        Ok(PathSpec { includes, excludes })
    }

    pub fn matches(&self, path: &str) -> (r: bool)
        ensures
            r == self@.accepts(path@),
    {
        let inc = self.includes.len() == 0 || any_covers_exec(&self.includes, path);
        inc && !any_covers_exec(&self.excludes, path)
    }

    /// Split changed paths into those a refresh folds into the top patch and
    /// those it leaves uncommitted, each in the given order.
    pub fn split_changes(&self, changed: &Vec<String>) -> (r: (Vec<String>, Vec<String>))
        ensures
            texts(r.0@) == selected(self@, texts(changed@), true),
            texts(r.1@) == selected(self@, texts(changed@), false),
    {
        let mut fold: Vec<String> = Vec::new();
        let mut keep: Vec<String> = Vec::new();
        let mut i: usize = 0;
        while i < changed.len()
            invariant
                i <= changed@.len(),
                texts(fold@) == selected(self@, texts(changed@).subrange(0, i as int), true),
                texts(keep@) == selected(self@, texts(changed@).subrange(0, i as int), false),
            decreases changed@.len() - i,
        {
            let ghost pre = texts(changed@).subrange(0, i as int);
            let ghost next = texts(changed@).subrange(0, i + 1);
            assert(next.drop_last() =~= pre);
            let c = changed[i].clone();
            assert(c@ == next.last());
            if self.matches(c.as_str()) {
                fold.push(c);
            } else {
                keep.push(c);
            }
            assert(texts(fold@) =~= selected(self@, next, true));
            assert(texts(keep@) =~= selected(self@, next, false));
            i = i + 1;
        }
        assert(texts(changed@).subrange(0, i as int) =~= texts(changed@));
        (fold, keep)
    }
}

/// The paths of `s`, in order, that the filter accepts (`keep` true) or
/// refuses (`keep` false).
pub open spec fn selected(v: PathSpecView, s: Seq<Seq<char>>, keep: bool) -> Seq<Seq<char>>
    decreases s.len(),
{
    if s.len() == 0 {
        s
    } else {
        let r = selected(v, s.drop_last(), keep);
        if v.accepts(s.last()) == keep {
            r.push(s.last())
        } else {
            r
        }
    }
}

} // verus!
