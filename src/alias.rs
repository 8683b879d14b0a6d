use vstd::prelude::*;
use crate::error::Error;

verus! {

/// What an alias stands for: another command of this tool, or a shell command.
#[derive(Debug)]
pub enum AliasKind {
    Command(String),
    Shell(String),
}

#[derive(Debug)]
pub struct Alias {
    pub name: String,
    pub kind: AliasKind,
}

/// Where a command name ends up once aliases are expanded.
#[derive(Debug, PartialEq, Eq)]
pub enum Expansion {
    Command(String),
    Shell(String),
}

/// The first alias of `t` named `n`.
pub open spec fn lookup(t: Seq<Alias>, n: Seq<char>) -> Option<AliasKind>
    decreases t.len(),
{
    if t.len() == 0 {
        None
    } else if t[0].name@ == n {
        Some(t[0].kind)
    } else {
        lookup(t.drop_first(), n)
    }
}

/// The command that `n` names directly, if it is a command alias.
pub open spec fn step(t: Seq<Alias>, n: Seq<char>) -> Option<Seq<char>> {
    match lookup(t, n) {
        Some(AliasKind::Command(c)) => Some(c@),
        _ => None,
    }
}

/// The name reached from `n` after `k` expansions of command aliases; it
/// stays put once it is no command alias.
pub open spec fn walk(t: Seq<Alias>, n: Seq<char>, k: nat) -> Seq<char>
    decreases k,
{
    if k == 0 {
        n
    } else {
        let prev = walk(t, n, (k - 1) as nat);
        match step(t, prev) {
            Some(m) => m,
            None => prev,
        }
    }
}

/// Expanding `n` never ends when it is still on a command alias after as many
/// expansions as there are aliases.
pub open spec fn runs_away(t: Seq<Alias>, n: Seq<char>) -> bool {
    step(t, walk(t, n, t.len())) is Some
}

/// A name where expansion stands still stays put for every later step.
pub proof fn lemma_walk_settles(t: Seq<Alias>, n: Seq<char>, k: nat, m: nat)
    requires
        k <= m,
        step(t, walk(t, n, k)) is None,
    ensures
        walk(t, n, m) == walk(t, n, k),
    decreases m - k,
{
    if k < m {
        lemma_walk_settles(t, n, k, (m - 1) as nat);
    }
}

fn lookup_exec<'a>(t: &'a Vec<Alias>, n: &String) -> (r: Option<&'a AliasKind>)
    ensures
        r matches Some(k) ==> lookup(t@, n@) == Some(*k),
        r is None ==> lookup(t@, n@) is None,
{
    let mut i: usize = 0;
    assert(t@.subrange(0, t@.len() as int) =~= t@);
    while i < t.len()
        invariant
            i <= t@.len(),
            lookup(t@, n@) == lookup(t@.subrange(i as int, t@.len() as int), n@),
        decreases t@.len() - i,
    {
        let ghost rest = t@.subrange(i as int, t@.len() as int);
        assert(rest.drop_first() =~= t@.subrange(i + 1, t@.len() as int));
        if t[i].name == *n {
            return Some(&t[i].kind);
        }
        i = i + 1;
    }
    None
}

/// Expand aliases starting from the command `name`, following command
/// aliases until a name that is none, or a shell alias. A chain still going
/// after as many steps as there are aliases goes round a cycle and is
/// refused.
pub fn expand_alias(t: &Vec<Alias>, name: &String) -> (r: Result<Expansion, Error>)
    ensures
        r is Err <==> runs_away(t@, name@),
        r matches Err(e) ==> e matches Error::RecursiveAlias(a) && a@ == name@,
        r matches Ok(x) ==> match lookup(t@, walk(t@, name@, t@.len())) {
            Some(AliasKind::Shell(s)) => x matches Expansion::Shell(y) && y@ == s@,
            _ => x matches Expansion::Command(c) && c@ == walk(t@, name@, t@.len()),
        },
{
    let n = t.len();
    let mut cur = name.clone();
    let mut k: usize = 0;
    loop
        invariant
            n == t@.len(),
            k <= n,
            cur@ == walk(t@, name@, k as nat),
        decreases n - k,
    {
        match lookup_exec(t, &cur) {
            Some(AliasKind::Command(target)) => {
                if k == n {
                    return Err(Error::RecursiveAlias(name.clone()));
                }
                cur = target.clone();
                k = k + 1;
            },
            Some(AliasKind::Shell(s)) => {
                proof {
                    lemma_walk_settles(t@, name@, k as nat, n as nat);
                }
                return Ok(Expansion::Shell(s.clone()));
            },
            None => {
                proof {
                    lemma_walk_settles(t@, name@, k as nat, n as nat);
                }
                return Ok(Expansion::Command(cur));
            },
        }
    }
}

} // verus!
