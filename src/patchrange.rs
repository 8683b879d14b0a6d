use vstd::prelude::*;
use crate::error::{Error, RangeError};
use crate::patchname::{PatchName, has_double_dot, valid_patch_name};
use vstd::string::StrSliceExecFns;
use crate::stack::{Patch, Stack, name_views, names, names_in};

verus! {

/// One end of a range: a patch by name, or a reserved marker for the bottom
/// (first above the base) or the top of the applied list.
#[derive(Debug)]
pub enum Bound {
    Name(PatchName),
    Base,
    Top,
}

/// A range expression: one patch, or an inclusive span between two ends.
#[derive(Debug)]
pub enum PatchRange {
    Single(Bound),
    Span(Bound, Bound),
}

pub open spec fn first_bound(rg: &PatchRange) -> &Bound {
    match rg {
        PatchRange::Single(b) => b,
        PatchRange::Span(a, _) => a,
    }
}

pub open spec fn last_bound(rg: &PatchRange) -> &Bound {
    match rg {
        PatchRange::Single(b) => b,
        PatchRange::Span(_, b) => b,
    }
}

/// The reserved words for the bottom and the top of the applied list.
pub open spec fn base_marker() -> Seq<char> {
    "{base}"@
}

pub open spec fn top_marker() -> Seq<char> {
    "{top}"@
}

/// The text that a bound is written as.
pub open spec fn bound_text(b: &Bound) -> Seq<char> {
    match b {
        Bound::Name(n) => n@,
        Bound::Base => base_marker(),
        Bound::Top => top_marker(),
    }
}

/// The text that a range is written as: one bound, or two joined by `..`.
pub open spec fn range_text(rg: &PatchRange) -> Seq<char> {
    match rg {
        PatchRange::Single(b) => bound_text(b),
        PatchRange::Span(a, b) => bound_text(a) + ".."@ + bound_text(b),
    }
}

pub open spec fn bound_parses(t: Seq<char>) -> bool {
    t == base_marker() || t == top_marker() || valid_patch_name(t)
}

pub open spec fn is_double_dot_at(s: Seq<char>, k: int) -> bool {
    0 <= k < s.len() - 1 && s[k] == '.' && s[k + 1] == '.'
}

/// Where the first `..` of `s` starts.
pub open spec fn first_double_dot(s: Seq<char>) -> int {
    choose|k: int| is_double_dot_at(s, k) && forall|j: int| 0 <= j < k ==> !is_double_dot_at(s, j)
}

/// A range expression is one bound, or two bounds around its first `..`.
pub open spec fn range_parses(s: Seq<char>) -> bool {
    if has_double_dot(s) {
        let k = first_double_dot(s);
        bound_parses(s.subrange(0, k)) && bound_parses(s.subrange(k + 2, s.len() as int))
    } else {
        bound_parses(s)
    }
}

fn str_eq(a: &str, b: &str) -> (r: bool)
    ensures
        r == (a@ == b@),
{
    let n = a.unicode_len();
    if n != b.unicode_len() {
        return false;
    }
    let mut i: usize = 0;
    while i < n
        invariant
            n == a@.len(),
            n == b@.len(),
            i <= n,
            forall|j: int| 0 <= j < i ==> a@[j] == b@[j],
        decreases n - i,
    {
        if a.get_char(i) != b.get_char(i) {
            return false;
        }
        i = i + 1;
    }
    assert(a@ =~= b@);
    true
}

impl Bound {
    /// Read one end of a range: a reserved marker or a patch name.
    pub fn parse(t: &str) -> (r: Result<Bound, Error>)
        ensures
            r is Ok <==> bound_parses(t@),
            r matches Ok(b) ==> bound_text(&b) == t@,
            r matches Err(e) ==> e matches Error::PatchName(_),
    {
        if str_eq(t, "{base}") {
            return Ok(Bound::Base);
        }
        if str_eq(t, "{top}") {
            return Ok(Bound::Top);
        }
        match PatchName::parse(t) {
            Ok(n) => Ok(Bound::Name(n)),
            Err(e) => Err(Error::PatchName(e)),
        }
    }
}

/// The list a place refers to: applied when `in_applied`, else unapplied.
pub open spec fn list_of(s: &Stack, in_applied: bool) -> Seq<Patch> {
    if in_applied {
        s.applied@
    } else {
        s.unapplied@
    }
}

/// `b` denotes position `i` of the list chosen by `in_applied`.
pub open spec fn bound_at(s: &Stack, b: &Bound, in_applied: bool, i: int) -> bool {
    match b {
        Bound::Name(n) => 0 <= i < list_of(s, in_applied).len() && list_of(s, in_applied)[i].name@
            == n@,
        Bound::Base => in_applied && s.applied@.len() > 0 && i == 0,
        Bound::Top => in_applied && s.applied@.len() > 0 && i == s.applied@.len() - 1,
    }
}

pub open spec fn bound_found(s: &Stack, b: &Bound) -> bool {
    exists|f: bool, i: int| bound_at(s, b, f, i)
}

/// `r` lists, in stack order, the names of one list from where the range
/// starts to where it ends, both included.
pub open spec fn resolves_to(s: &Stack, rg: &PatchRange, r: Seq<Seq<char>>) -> bool {
    exists|f: bool, i: int, j: int|
        #![trigger bound_at(s, first_bound(rg), f, i), bound_at(s, last_bound(rg), f, j)]
        bound_at(s, first_bound(rg), f, i) && bound_at(s, last_bound(rg), f, j) && i <= j && r
            == names(list_of(s, f).subrange(i, j + 1))
}

/// The error raised for a bound that is not found: the missing name, or no
/// applied patch for a marker.
pub open spec fn missing_bound_error(b: &Bound, e: &Error) -> bool {
    match b {
        Bound::Name(n) => e matches Error::RevisionNotFound(t) && t@ == n@,
        _ => e matches Error::NoAppliedPatches,
    }
}

fn resolve_bound(s: &Stack, b: &Bound) -> (r: Result<(bool, usize), Error>)
    requires
        s.wf(),
    ensures
        r is Ok <==> bound_found(s, b),
        r matches Ok((f, i)) ==> bound_at(s, b, f, i as int),
        r matches Err(e) ==> missing_bound_error(b, &e),
{
    match b {
        Bound::Name(n) => match s.locate(n) {
            Some(crate::stack::Place::Applied(i)) => {
                assert(bound_at(s, b, true, i as int));
                Ok((true, i))
            },
            Some(crate::stack::Place::Unapplied(i)) => {
                assert(bound_at(s, b, false, i as int));
                Ok((false, i))
            },
            None => {
                proof {
                    if bound_found(s, b) {
                        let (f, i) = choose|f: bool, i: int| bound_at(s, b, f, i);
                        if f {
                            assert(s.all()[i] == s.applied@[i]);
                            assert(s.all()[i].name@ == n@);
                        } else {
                            assert(s.all()[i + s.applied@.len()] == s.unapplied@[i]);
                            assert(s.all()[i + s.applied@.len()].name@ == n@);
                        }
                    }
                }
                Err(Error::RevisionNotFound(n.to_text()))
            },
        },
        Bound::Base => {
            if s.applied.len() == 0 {
                Err(Error::NoAppliedPatches)
            } else {
                assert(bound_at(s, b, true, 0));
                Ok((true, 0))
            }
        },
        Bound::Top => {
            if s.applied.len() == 0 {
                Err(Error::NoAppliedPatches)
            } else {
                assert(bound_at(s, b, true, s.applied@.len() - 1));
                Ok((true, s.applied.len() - 1))
            }
        },
    }
}

/// Both ends are found in one list, the first no later than the second.
pub open spec fn range_ok(s: &Stack, rg: &PatchRange) -> bool {
    exists|f: bool, i: int, j: int|
        #![trigger bound_at(s, first_bound(rg), f, i), bound_at(s, last_bound(rg), f, j)]
        bound_at(s, first_bound(rg), f, i) && bound_at(s, last_bound(rg), f, j) && i <= j
}

/// Both ends are found in one list.
pub open spec fn same_list(s: &Stack, rg: &PatchRange) -> bool {
    exists|f: bool, i: int, j: int|
        #![trigger bound_at(s, first_bound(rg), f, i), bound_at(s, last_bound(rg), f, j)]
        bound_at(s, first_bound(rg), f, i) && bound_at(s, last_bound(rg), f, j)
}

/// In a well-formed stack a bound denotes at most one place.
pub proof fn lemma_bound_unique(s: &Stack, b: &Bound, f: bool, i: int, g: bool, k: int)
    requires
        s.wf(),
        bound_at(s, b, f, i),
        bound_at(s, b, g, k),
    ensures
        f == g,
        i == k,
{
    if let Bound::Name(n) = b {
        let alen = s.applied@.len() as int;
        let x = if f { i } else { i + alen };
        let y = if g { k } else { k + alen };
        assert(s.all()[x].name@ == n@);
        assert(s.all()[y].name@ == n@);
    }
}

impl PatchRange {
    /// Read a range expression: `NAME`, `NAME..NAME`, where either end may
    /// also be `{base}` or `{top}`.
    pub fn parse(expr: &str) -> (r: Result<PatchRange, Error>)
        ensures
            r is Ok <==> range_parses(expr@),
            r matches Ok(rg) ==> range_text(&rg) == expr@,
            r matches Err(e) ==> e matches Error::PatchName(_),
    {
        let n = expr.unicode_len();
        let mut k: usize = 0;
        while k < n
            invariant
                n == expr@.len(),
                k <= n,
                forall|j: int| 0 <= j < k ==> !is_double_dot_at(expr@, j),
            decreases n - k,
        {
            if k + 1 < n && expr.get_char(k) == '.' && expr.get_char(k + 1) == '.' {
                proof {
                    assert(is_double_dot_at(expr@, k as int));
                    let f = first_double_dot(expr@);
                    assert(!(f < k) && !(k < f));
                }
                let left = expr.substring_char(0, k);
                let right = expr.substring_char(k + 2, n);
                let a = match Bound::parse(left) {
                    Ok(b) => b,
                    Err(e) => {
                        return Err(e);
                    },
                };
                let b = match Bound::parse(right) {
                    Ok(b) => b,
                    Err(e) => {
                        return Err(e);
                    },
                };
                proof {
                    reveal_strlit("..");
                    assert(expr@ =~= left@ + ".."@ + right@);
                }
                return Ok(PatchRange::Span(a, b));
            }
            k = k + 1;
        }
        proof {
            if has_double_dot(expr@) {
                let j = choose|j: int| 0 <= j < expr@.len() - 1 && #[trigger] expr@[j] == '.' && expr@[j + 1] == '.';
                assert(is_double_dot_at(expr@, j));
            }
        }
        match Bound::parse(expr) {
            Ok(b) => Ok(PatchRange::Single(b)),
            Err(e) => Err(e),
        }
    }

    /// Resolve the range against a stack, in stack order.
    pub fn resolve(&self, s: &Stack) -> (r: Result<Vec<PatchName>, Error>)
        requires
            s.wf(),
        ensures
            r is Ok <==> range_ok(s, self),
            r matches Ok(v) ==> resolves_to(s, self, name_views(v@)),
            r matches Err(e) ==> {
                ||| !bound_found(s, first_bound(self)) && missing_bound_error(first_bound(self), &e)
                ||| bound_found(s, first_bound(self)) && !bound_found(s, last_bound(self))
                    && missing_bound_error(last_bound(self), &e)
                ||| bound_found(s, first_bound(self)) && bound_found(s, last_bound(self))
                    && !same_list(s, self) && e == Error::PatchRange(RangeError::MixedLists)
                ||| same_list(s, self) && !range_ok(s, self) && e == Error::PatchRange(
                    RangeError::Reversed,
                )
            },
    {
        let (a, b) = match self {
            PatchRange::Single(x) => (x, x),
            PatchRange::Span(x, y) => (x, y),
        };
        let (f, i) = match resolve_bound(s, a) {
            Ok(p) => p,
            Err(e) => {
                return Err(e);
            },
        };
        let (g, j) = match resolve_bound(s, b) {
            Ok(p) => p,
            Err(e) => {
                return Err(e);
            },
        };
        if f != g {
            proof {
                if same_list(s, self) {
                    let (h, x, y) = choose|h: bool, x: int, y: int|
                        bound_at(s, a, h, x) && bound_at(s, b, h, y);
                    lemma_bound_unique(s, a, f, i as int, h, x);
                    lemma_bound_unique(s, b, g, j as int, h, y);
                }
            }
            return Err(Error::PatchRange(RangeError::MixedLists));
        }
        if i > j {
            proof {
                assert(bound_at(s, a, f, i as int) && bound_at(s, b, f, j as int));
                if range_ok(s, self) {
                    let (h, x, y) = choose|h: bool, x: int, y: int|
                        bound_at(s, a, h, x) && bound_at(s, b, h, y) && x <= y;
                    lemma_bound_unique(s, a, f, i as int, h, x);
                    lemma_bound_unique(s, b, g, j as int, h, y);
                }
            }
            return Err(Error::PatchRange(RangeError::Reversed));
        }
        let list = if f {
            &s.applied
        } else {
            &s.unapplied
        };
        assert(bound_at(s, a, f, i as int) && bound_at(s, b, f, j as int));
        // the end lies in the list, so it is `j + 1`
        let end = if j < list.len() {
            j + 1
        } else {
            list.len()
        };
        let v = names_in(list, i, end);
        Ok(v)
    }
}

/// Resolving one range twice against one unchanged stack gives one and the
/// same ordered list of names.
pub proof fn lemma_resolve_deterministic(
    s: &Stack,
    rg: &PatchRange,
    r1: Seq<Seq<char>>,
    r2: Seq<Seq<char>>,
)
    requires
        s.wf(),
        resolves_to(s, rg, r1),
        resolves_to(s, rg, r2),
    ensures
        r1 == r2,
{
    let (f, i, j) = choose|f: bool, i: int, j: int|
        bound_at(s, first_bound(rg), f, i) && bound_at(s, last_bound(rg), f, j) && i <= j && r1
            == names(list_of(s, f).subrange(i, j + 1));
    let (g, x, y) = choose|g: bool, x: int, y: int|
        bound_at(s, first_bound(rg), g, x) && bound_at(s, last_bound(rg), g, y) && x <= y && r2
            == names(list_of(s, g).subrange(x, y + 1));
    lemma_bound_unique(s, first_bound(rg), f, i, g, x);
    lemma_bound_unique(s, last_bound(rg), f, j, g, y);
}

} // verus!
