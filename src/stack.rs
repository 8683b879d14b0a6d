use vstd::prelude::*;
use crate::error::Error;
use crate::patchname::PatchName;

verus! {

/// A commit, as the opaque handle the version-control engine hands out.
pub type CommitId = u64;

/// A named commit tracked by a stack.
#[derive(Debug)]
pub struct Patch {
    pub name: PatchName,
    pub commit: CommitId,
}

impl Clone for Patch {
    fn clone(&self) -> (r: Self)
        ensures
            r == *self,
    {
        Patch { name: self.name.clone(), commit: self.commit }
    }
}

/// Where a patch sits in its stack.
#[derive(Clone, Copy, Debug, PartialEq, Eq, Structural)]
pub enum Place {
    Applied(usize),
    Unapplied(usize),
}

pub open spec fn names(s: Seq<Patch>) -> Seq<Seq<char>> {
    s.map_values(|p: Patch| p.name@)
}

pub open spec fn name_set(s: Seq<Patch>) -> Set<Seq<char>> {
    names(s).to_set()
}

pub open spec fn distinct_names(s: Seq<Patch>) -> bool {
    forall|i: int, j: int| 0 <= i < s.len() && 0 <= j < s.len() && i != j ==> #[trigger] s[i].name@
        != #[trigger] s[j].name@
}

pub open spec fn holds_name(s: Seq<Patch>, name: Seq<char>) -> bool {
    exists|i: int| 0 <= i < s.len() && #[trigger] s[i].name@ == name
}

/// The commit a stack's head must be: the top applied patch, or the base
/// when nothing is applied.
pub open spec fn top_commit(base: CommitId, applied: Seq<Patch>) -> CommitId {
    if applied.len() == 0 {
        base
    } else {
        applied.last().commit
    }
}

/// The patches of one branch: a base commit, the applied patches from the
/// bottom up (the last one is the top), the unapplied ones in the order they
/// come back, and the recorded head.
#[derive(Debug)]
pub struct Stack {
    pub base: CommitId,
    pub applied: Vec<Patch>,
    pub unapplied: Vec<Patch>,
    pub head: CommitId,
}

/// The mathematical value of a stack.
pub struct StackView {
    pub base: CommitId,
    pub applied: Seq<Patch>,
    pub unapplied: Seq<Patch>,
    pub head: CommitId,
}

impl StackView {
    pub open spec fn all(self) -> Seq<Patch> {
        self.applied + self.unapplied
    }

    /// Names are unique over both lists and the head is the top patch.
    pub open spec fn wf(self) -> bool {
        &&& distinct_names(self.all())
        &&& self.head == top_commit(self.base, self.applied)
    }
}

/// The stack after unapplied patch `i` is applied on top as commit `c`.
pub open spec fn pushed(s: StackView, i: int, c: CommitId) -> StackView {
    StackView {
        base: s.base,
        applied: s.applied.push(Patch { name: s.unapplied[i].name, commit: c }),
        unapplied: s.unapplied.remove(i),
        head: c,
    }
}

/// The stack after the applied patches from position `i` up are popped: they
/// go, in their order, to the front of the unapplied list.
pub open spec fn popped_from(s: StackView, i: int) -> StackView {
    StackView {
        base: s.base,
        applied: s.applied.subrange(0, i),
        unapplied: s.applied.subrange(i, s.applied.len() as int) + s.unapplied,
        head: top_commit(s.base, s.applied.subrange(0, i)),
    }
}

/// The stack after the top patch's commit is replaced by `c`.
pub open spec fn refreshed(s: StackView, c: CommitId) -> StackView {
    StackView {
        base: s.base,
        applied: s.applied.update(
            s.applied.len() - 1,
            Patch { name: s.applied.last().name, commit: c },
        ),
        unapplied: s.unapplied,
        head: c,
    }
}

/// Applied and unapplied names never overlap in a well-formed stack.
pub proof fn lemma_lists_disjoint(s: StackView)
    requires
        s.wf(),
    ensures
        name_set(s.applied).disjoint(name_set(s.unapplied)),
{
    assert forall|n: Seq<char>| name_set(s.applied).contains(n) implies !name_set(
        s.unapplied,
    ).contains(n) by {
        let i = names(s.applied).index_of(n);
        assert(s.all()[i] == s.applied[i]);
        if name_set(s.unapplied).contains(n) {
            let j = names(s.unapplied).index_of(n);
            assert(s.all()[s.applied.len() + j] == s.unapplied[j]);
            assert(s.all()[s.applied.len() + j].name@ == n);
        }
    }
}

/// Applying an unapplied patch keeps the stack well formed and tracks the
/// same names.
pub proof fn lemma_pushed_wf(s: StackView, i: int, c: CommitId)
    requires
        s.wf(),
        0 <= i < s.unapplied.len(),
    ensures
        pushed(s, i, c).wf(),
        name_set(pushed(s, i, c).all()) == name_set(s.all()),
{
    let t = pushed(s, i, c);
    let a = s.applied.len() as int;
    let n = t.all().len() as int;
    assert(n == s.all().len());
    // position in the old list of the patch at position x of the new one
    let src = |x: int|
        if x < a {
            x
        } else if x == a {
            a + i
        } else if x - a - 1 < i {
            x - 1
        } else {
            x
        };
    assert forall|x: int| 0 <= x < n implies 0 <= #[trigger] src(x) < n && t.all()[x].name@
        == s.all()[src(x)].name@ by {
        if x > a {
            assert(t.all()[x] == s.unapplied.remove(i)[x - a - 1]);
        }
    }
    assert forall|x: int, y: int| 0 <= x < n && 0 <= y < n && x != y implies #[trigger] t.all()[x].name@
        != #[trigger] t.all()[y].name@ by {
        assert(src(x) != src(y));
        assert(t.all()[x].name@ == s.all()[src(x)].name@);
        assert(t.all()[y].name@ == s.all()[src(y)].name@);
    }
    assert forall|m: Seq<char>| name_set(t.all()).contains(m) <==> name_set(s.all()).contains(m) by {
        if name_set(t.all()).contains(m) {
            let x = names(t.all()).index_of(m);
            assert(s.all()[src(x)].name@ == m);
            assert(names(s.all())[src(x)] == m);
        }
        if name_set(s.all()).contains(m) {
            let y = names(s.all()).index_of(m);
            let x = if y < a {
                y
            } else if y == a + i {
                a
            } else if y < a + i {
                y + 1
            } else {
                y
            };
            assert(src(x) == y);
            assert(names(t.all())[x] == m);
        }
    }
    assert(name_set(t.all()) =~= name_set(s.all()));
}

/// Popping keeps every patch, in the same order over both lists.
pub proof fn lemma_popped_wf(s: StackView, i: int)
    requires
        s.wf(),
        0 <= i <= s.applied.len(),
    ensures
        popped_from(s, i).wf(),
        popped_from(s, i).all() == s.all(),
{
    assert(popped_from(s, i).all() =~= s.all());
}

/// Replacing the top commit keeps the stack well formed.
pub proof fn lemma_refreshed_wf(s: StackView, c: CommitId)
    requires
        s.wf(),
        s.applied.len() > 0,
    ensures
        refreshed(s, c).wf(),
        names(refreshed(s, c).all()) == names(s.all()),
{
    let t = refreshed(s, c);
    assert(names(t.all()) =~= names(s.all())) by {
        assert forall|x: int| 0 <= x < t.all().len() implies t.all()[x].name@ == s.all()[x].name@ by {
            if x < s.applied.len() {
                assert(t.all()[x] == t.applied[x]);
                assert(s.all()[x] == s.applied[x]);
            } else {
                assert(t.all()[x] == s.unapplied[x - s.applied.len()]);
            }
        }
    }
    assert forall|x: int, y: int| 0 <= x < t.all().len() && 0 <= y < t.all().len() && x != y implies #[trigger] t.all()[x].name@
        != #[trigger] t.all()[y].name@ by {
        assert(names(t.all())[x] == names(s.all())[x]);
        assert(names(t.all())[y] == names(s.all())[y]);
    }
}

/// The stack after unapplied patch `i` is dropped.
pub open spec fn deleted(s: StackView, i: int) -> StackView {
    StackView { unapplied: s.unapplied.remove(i), ..s }
}

/// The stack, with nothing applied, moved onto base `b`.
pub open spec fn rebased(s: StackView, b: CommitId) -> StackView {
    StackView { base: b, head: b, ..s }
}

/// Dropping an unapplied patch keeps the stack well formed; only its name
/// leaves the stack.
pub proof fn lemma_deleted_wf(s: StackView, i: int)
    requires
        s.wf(),
        0 <= i < s.unapplied.len(),
    ensures
        deleted(s, i).wf(),
        name_set(deleted(s, i).all()) == name_set(s.all()).remove(s.unapplied[i].name@),
{
    let t = deleted(s, i);
    let a = s.applied.len() as int;
    let src = |x: int|
        if x < a + i {
            x
        } else {
            x + 1
        };
    assert forall|x: int| 0 <= x < t.all().len() implies #[trigger] t.all()[x] == s.all()[src(x)] by {
        if x >= a {
            assert(t.all()[x] == s.unapplied.remove(i)[x - a]);
        }
    }
    assert forall|x: int, y: int| 0 <= x < t.all().len() && 0 <= y < t.all().len() && x != y implies #[trigger] t.all()[x].name@
        != #[trigger] t.all()[y].name@ by {
        assert(t.all()[x] == s.all()[src(x)]);
        assert(t.all()[y] == s.all()[src(y)]);
    }
    let gone = s.unapplied[i].name@;
    assert(s.all()[a + i] == s.unapplied[i]);
    assert forall|m: Seq<char>| name_set(t.all()).contains(m) <==> name_set(s.all()).remove(gone).contains(m) by {
        if name_set(t.all()).contains(m) {
            let x = names(t.all()).index_of(m);
            assert(t.all()[x] == s.all()[src(x)]);
            assert(names(s.all())[src(x)] == m);
        }
        if name_set(s.all()).remove(gone).contains(m) {
            let y = names(s.all()).index_of(m);
            let x = if y < a + i { y } else { y - 1 };
            assert(y != a + i);
            assert(src(x) == y);
            assert(t.all()[x] == s.all()[y]);
            assert(names(t.all())[x] == m);
        }
    }
    assert(name_set(t.all()) =~= name_set(s.all()).remove(gone));
}

/// The stack with its recorded head moved to the branch tip `tip`: the top
/// patch (or the base, when nothing is applied) now stands at `tip`.
pub open spec fn repaired(s: StackView, tip: CommitId) -> StackView {
    if s.applied.len() == 0 {
        StackView { base: tip, head: tip, ..s }
    } else {
        refreshed(s, tip)
    }
}

/// Steps that neither add nor delete a patch (push, pop, refresh, rebase,
/// repair) keep the two lists disjoint and their union unchanged.
pub proof fn lemma_union_kept(s: StackView, i: int, c: CommitId)
    requires
        s.wf(),
    ensures
        0 <= i < s.unapplied.len() ==> pushed(s, i, c).wf() && name_set(pushed(s, i, c).all())
            == name_set(s.all()),
        0 <= i <= s.applied.len() ==> popped_from(s, i).wf() && name_set(popped_from(s, i).all())
            == name_set(s.all()),
        s.applied.len() > 0 ==> refreshed(s, c).wf() && name_set(refreshed(s, c).all())
            == name_set(s.all()),
        s.applied.len() == 0 ==> rebased(s, c).wf() && name_set(rebased(s, c).all())
            == name_set(s.all()),
        repaired(s, c).wf() && name_set(repaired(s, c).all()) == name_set(s.all()),
        name_set(s.applied).disjoint(name_set(s.unapplied)),
{
    lemma_lists_disjoint(s);
    if 0 <= i < s.unapplied.len() {
        lemma_pushed_wf(s, i, c);
    }
    if 0 <= i <= s.applied.len() {
        lemma_popped_wf(s, i);
    }
    if s.applied.len() > 0 {
        lemma_refreshed_wf(s, c);
    }
    assert(rebased(s, c).all() == s.all());
}

pub open spec fn named_in(s: Seq<Patch>, name: Seq<char>, lo: int, hi: int) -> bool {
    exists|j: int| lo <= j < hi && #[trigger] s[j].name@ == name
}

/// `order` lists distinct names, each of an applied patch at a position in
/// `lo .. lo + order.len()`: a new order for that contiguous block.
pub open spec fn block_order(s: StackView, order: Seq<Seq<char>>, lo: int) -> bool {
    &&& order.len() > 0
    &&& 0 <= lo
    &&& lo + order.len() <= s.applied.len()
    &&& forall|a: int, b: int|
        0 <= a < order.len() && 0 <= b < order.len() && a != b ==> #[trigger] order[a]
            != #[trigger] order[b]
    &&& forall|a: int|
        0 <= a < order.len() ==> named_in(s.applied, #[trigger] order[a], lo, lo + order.len())
}

/// Pushing the first unapplied patch with a clean merge that keeps its commit,
/// then popping it again, gives back the stack exactly: base, both lists and
/// head.
pub proof fn lemma_push_then_pop(s: StackView, c: CommitId)
    requires
        s.wf(),
        s.unapplied.len() > 0,
        c == s.unapplied[0].commit,
    ensures
        popped_from(pushed(s, 0, c), s.applied.len() as int) == s,
{
    let t = pushed(s, 0, c);
    let r = popped_from(t, s.applied.len() as int);
    assert(r.applied =~= s.applied);
    assert(t.applied.subrange(s.applied.len() as int, t.applied.len() as int) =~= seq![s.unapplied[0]]);
    assert(r.unapplied =~= s.unapplied);
}

impl View for Stack {
    type V = StackView;

    open spec fn view(&self) -> StackView {
        StackView {
            base: self.base,
            applied: self.applied@,
            unapplied: self.unapplied@,
            head: self.head,
        }
    }
}

impl Clone for Stack {
    fn clone(&self) -> (r: Self)
        ensures
            r@ == self@,
    {
        let applied = self.applied.clone();
        let unapplied = self.unapplied.clone();
        assert(applied@ =~= self.applied@);
        assert(unapplied@ =~= self.unapplied@);
        Stack { base: self.base, applied, unapplied, head: self.head }
    }
}

impl Stack {
    /// Every patch of the stack, applied ones first.
    pub open spec fn all(&self) -> Seq<Patch> {
        self@.all()
    }

    pub open spec fn wf(&self) -> bool {
        self@.wf()
    }

    pub open spec fn applied_names(&self) -> Set<Seq<char>> {
        name_set(self.applied@)
    }

    pub open spec fn unapplied_names(&self) -> Set<Seq<char>> {
        name_set(self.unapplied@)
    }

    pub open spec fn contains(&self, name: Seq<char>) -> bool {
        holds_name(self.all(), name)
    }

    /// A stack with no patches on `base`.
    pub fn new(base: CommitId) -> (r: Stack)
        ensures
            r.wf(),
            r.base == base,
            r.head == base,
            r.applied@.len() == 0,
            r.unapplied@.len() == 0,
    {
        Stack { base, applied: Vec::new(), unapplied: Vec::new(), head: base }
    }

    /// Find a patch by name in either list.
    pub fn locate(&self, name: &PatchName) -> (r: Option<Place>)
        ensures
            r is None <==> !self.contains(name@),
            r matches Some(Place::Applied(i)) ==> i < self.applied@.len()
                && self.applied@[i as int].name@ == name@,
            r matches Some(Place::Unapplied(i)) ==> i < self.unapplied@.len()
                && self.unapplied@[i as int].name@ == name@,
    {
        proof {
            lemma_holds_name_concat(self.applied@, self.unapplied@, name@);
        }
        match find_name(&self.applied, name) {
            Some(i) => Some(Place::Applied(i)),
            None => match find_name(&self.unapplied, name) {
                Some(i) => Some(Place::Unapplied(i)),
                None => None,
            },
        }
    }

    /// Fail when a patch of that name is already tracked.
    pub fn ensure_unique(&self, name: &PatchName) -> (r: Result<(), Error>)
        ensures
            r is Ok <==> !self.contains(name@),
            r matches Err(e) ==> e matches Error::PatchAlreadyExists(n) && n@ == name@,
    {
        match self.locate(name) {
            Some(_) => Err(Error::PatchAlreadyExists(name.to_text())),
            None => Ok(()),
        }
    }

    /// Fail when no patch of that name is tracked.
    pub fn ensure_exists(&self, name: &PatchName) -> (r: Result<(), Error>)
        ensures
            r is Ok <==> self.contains(name@),
            r matches Err(e) ==> e matches Error::PatchDoesNotExist(n) && n@ == name@,
    {
        match self.locate(name) {
            Some(_) => Ok(()),
            None => Err(Error::PatchDoesNotExist(name.to_text())),
        }
    }

    /// Rebuild a stack from its persisted record and check it against the
    /// branch's actual tip: names must be unique, the recorded head must be the
    /// top patch (or the base), and the branch must not have moved.
    pub fn load(
        base: CommitId,
        applied: Vec<Patch>,
        unapplied: Vec<Patch>,
        head: CommitId,
        tip: CommitId,
    ) -> (r: Result<Stack, Error>)
        requires
            applied@.len() + unapplied@.len() <= usize::MAX,
        ensures
            r is Ok <==> distinct_names(applied@ + unapplied@) && head == top_commit(base, applied@)
                && head == tip,
            r matches Ok(s) ==> s.wf() && s@ == (StackView {
                base,
                applied: applied@,
                unapplied: unapplied@,
                head,
            }),
            r matches Err(e) ==> if !distinct_names(applied@ + unapplied@) {
                e matches Error::PatchAlreadyExists(_)
            } else if head != top_commit(base, applied@) {
                e matches Error::MalformedMetadata
            } else {
                e matches Error::StackTopHeadMismatch
            },
    {
        match first_duplicate(&applied, &unapplied) {
            Some(n) => {
                return Err(Error::PatchAlreadyExists(n.to_text()));
            },
            None => {},
        }
        let top = if applied.len() == 0 {
            base
        } else {
            applied[applied.len() - 1].commit
        };
        if head != top {
            return Err(Error::MalformedMetadata);
        }
        let s = Stack { base, applied, unapplied, head };
        match s.check_head(tip) {
            Ok(()) => Ok(s),
            Err(e) => Err(e),
        }
    }

    /// Compare the recorded head with the branch's actual tip.
    pub fn check_head(&self, tip: CommitId) -> (r: Result<(), Error>)
        ensures
            r is Ok <==> self.head == tip,
            r matches Err(e) ==> e matches Error::StackTopHeadMismatch,
    {
        if self.head == tip {
            Ok(())
        } else {
            Err(Error::StackTopHeadMismatch)
        }
    }
}

pub open spec fn name_views(v: Seq<PatchName>) -> Seq<Seq<char>> {
    v.map_values(|n: PatchName| n@)
}

/// The names of the patches from `lo` up to, not including, `hi`.
pub fn names_in(list: &Vec<Patch>, lo: usize, hi: usize) -> (v: Vec<PatchName>)
    requires
        lo <= hi <= list@.len(),
    ensures
        name_views(v@) == names(list@.subrange(lo as int, hi as int)),
{
    let mut v: Vec<PatchName> = Vec::new();
    let mut k: usize = lo;
    while k < hi
        invariant
            lo <= k <= hi,
            hi <= list@.len(),
            v@.len() == k - lo,
            name_views(v@) == names(list@.subrange(lo as int, k as int)),
        decreases hi - k,
    {
        let n = list[k].name.clone();
        let ghost old_v = v@;
        v.push(n);
        proof {
            let b = lo as int;
            assert forall|m: int| 0 <= m < v@.len() implies #[trigger] name_views(v@)[m] == names(
                list@.subrange(b, k + 1),
            )[m] by {
                if m < old_v.len() {
                    assert(v@[m] == old_v[m]);
                    assert(name_views(old_v)[m] == names(list@.subrange(b, k as int))[m]);
                } else {
                    assert(v@[m] == n);
                }
            }
            assert(name_views(v@) =~= names(list@.subrange(b, k + 1)));
        }
        k = k + 1;
    }
    v
}

fn patch_at<'a>(a: &'a Vec<Patch>, b: &'a Vec<Patch>, k: usize) -> (r: &'a Patch)
    requires
        k < a@.len() + b@.len(),
    ensures
        *r == (a@ + b@)[k as int],
{
    if k < a.len() {
        &a[k]
    } else {
        &b[k - a.len()]
    }
}

/// A name that two patches of `a` followed by `b` share, if any.
fn first_duplicate(a: &Vec<Patch>, b: &Vec<Patch>) -> (r: Option<PatchName>)
    requires
        a@.len() + b@.len() <= usize::MAX,
    ensures
        r is None <==> distinct_names(a@ + b@),
{
    let ghost all = a@ + b@;
    let n = a.len() + b.len();
    let mut j: usize = 0;
    while j < n
        invariant
            all == a@ + b@,
            n == all.len(),
            j <= n,
            distinct_names(all.subrange(0, j as int)),
        decreases n - j,
    {
        let pj = patch_at(a, b, j);
        let mut k: usize = 0;
        while k < j
            invariant
                all == a@ + b@,
                n == all.len(),
                k <= j < n,
                *pj == all[j as int],
                forall|x: int| 0 <= x < k ==> #[trigger] all[x].name@ != all[j as int].name@,
            decreases j - k,
        {
            let pk = patch_at(a, b, k);
            if pk.name.same_as(&pj.name) {
                proof {
                    assert(all[k as int].name@ == all[j as int].name@);
                }
                return Some(pj.name.clone());
            }
            k = k + 1;
        }
        proof {
            let s0 = all.subrange(0, j as int);
            let s1 = all.subrange(0, j + 1);
            assert forall|x: int, y: int| 0 <= x < s1.len() && 0 <= y < s1.len() && x != y implies #[trigger] s1[x].name@
                != #[trigger] s1[y].name@ by {
                if x < j && y < j {
                    assert(s1[x] == s0[x] && s1[y] == s0[y]);
                }
            }
        }
        j = j + 1;
    }
    assert(all.subrange(0, n as int) =~= all);
    None
}

/// The first position of `name` in `list`.
pub fn find_name(list: &Vec<Patch>, name: &PatchName) -> (r: Option<usize>)
    ensures
        r is None <==> !holds_name(list@, name@),
        r matches Some(i) ==> i < list@.len() && list@[i as int].name@ == name@ && forall|j: int|
            0 <= j < i ==> #[trigger] list@[j].name@ != name@,
{
    let mut i: usize = 0;
    while i < list.len()
        invariant
            i <= list@.len(),
            forall|j: int| 0 <= j < i ==> #[trigger] list@[j].name@ != name@,
        decreases list@.len() - i,
    {
        if list[i].name.same_as(name) {
            return Some(i);
        }
        i = i + 1;
    }
    None
}

pub proof fn lemma_holds_name_concat(a: Seq<Patch>, b: Seq<Patch>, name: Seq<char>)
    ensures
        holds_name(a + b, name) <==> (holds_name(a, name) || holds_name(b, name)),
{
    if holds_name(a + b, name) {
        let i = choose|i: int| 0 <= i < (a + b).len() && #[trigger] (a + b)[i].name@ == name;
        if i < a.len() {
            assert(a[i].name@ == name);
        } else {
            assert(b[i - a.len()].name@ == name);
        }
    }
    if holds_name(a, name) {
        let i = choose|i: int| 0 <= i < a.len() && #[trigger] a[i].name@ == name;
        assert((a + b)[i].name@ == name);
    }
    if holds_name(b, name) {
        let i = choose|i: int| 0 <= i < b.len() && #[trigger] b[i].name@ == name;
        assert((a + b)[i + a.len()].name@ == name);
    }
}

} // verus!
