//! Paths as text: the directories above a path, and a path made relative to
//! a base directory.
use vstd::prelude::*;

verus! {

/// `a` names a directory above `p`: `p` starts with `a` followed by `'/'`.
pub open spec fn is_ancestor(a: Seq<char>, p: Seq<char>) -> bool {
    &&& 0 < a.len() < p.len()
    &&& p[a.len() as int] == '/'
    &&& p.take(a.len() as int) == a
}

/// A directory above a directory above `c` is above `c` too.
pub proof fn lemma_ancestor_transitive(a: Seq<char>, b: Seq<char>, c: Seq<char>)
    requires
        is_ancestor(a, b),
        is_ancestor(b, c),
    ensures
        is_ancestor(a, c),
{
    assert(c.take(a.len() as int) =~= b.take(a.len() as int));
    assert(c[a.len() as int] == b[a.len() as int]);
}

/// Whether `a` names a directory above `p`.
pub fn is_ancestor_of(a: &str, p: &str) -> (r: bool)
    ensures
        r == is_ancestor(a@, p@),
{
    let la = a.unicode_len();
    let lp = p.unicode_len();
    if la == 0 || la >= lp {
        return false;
    }
    if p.get_char(la) != '/' {
        return false;
    }
    let mut k: usize = 0;
    while k < la
        invariant
            la == a@.len(),
            lp == p@.len(),
            la < lp,
            k <= la,
            forall|m: int| 0 <= m < k ==> a@[m] == p@[m],
        decreases la - k,
    {
        if a.get_char(k) != p.get_char(k) {
            return false;
        }
        k = k + 1;
    }
    assert(p@.take(la as int) =~= a@);
    true
}

/// The directories above `p`, shortest first.
pub fn ancestors(p: &str) -> (r: Vec<String>)
    ensures
        forall|k: int| 0 <= k < r@.len() ==> is_ancestor(#[trigger] r@[k]@, p@),
        forall|a: Seq<char>| is_ancestor(a, p@) ==> exists|k: int| 0 <= k < r@.len() && #[trigger] r@[k]@ == a,
{
    let n = p.unicode_len();
    let mut out: Vec<String> = Vec::new();
    let mut i: usize = 1;
    while i < n
        invariant
            n == p@.len(),
            1 <= i,
            forall|k: int| 0 <= k < out@.len() ==> is_ancestor(#[trigger] out@[k]@, p@),
            forall|a: Seq<char>|
                is_ancestor(a, p@) && a.len() < i ==> exists|k: int| 0 <= k < out@.len() && #[trigger] out@[k]@ == a,
        decreases n - i,
    {
        if p.get_char(i) == '/' {
            let a = p.substring_char(0, i).to_owned();
            let ghost before = out@;
            out.push(a);
            proof {
                assert(out@[before.len() as int]@ == p@.take(i as int));
                assert forall|b: Seq<char>| is_ancestor(b, p@) && b.len() < i + 1 implies exists|k: int|
                    0 <= k < out@.len() && #[trigger] out@[k]@ == b by {
                    if b.len() == i {
                        assert(out@[before.len() as int]@ == b);
                    } else {
                        let k = choose|k: int| 0 <= k < before.len() && #[trigger] before[k]@ == b;
                        assert(out@[k] == before[k]);
                    }
                }
            }
        } else {
            proof {
                assert forall|b: Seq<char>| is_ancestor(b, p@) && b.len() < i + 1 implies exists|k: int|
                    0 <= k < out@.len() && #[trigger] out@[k]@ == b by {
                    assert(b.len() != i);
                }
            }
        }
        i = i + 1;
    }
    out
}

/// `full` made relative to the directory `base`, compared component by
/// component as a path prefix; `None` when `full` is not inside `base`.
pub open spec fn relative_path(full: Seq<char>, base: Seq<char>) -> Option<Seq<char>> {
    if base.len() == 0 {
        Some(full)
    } else if full == base {
        Some(seq![])
    } else if full.len() > base.len() && full.take(base.len() as int) == base {
        if base.last() == '/' {
            Some(full.skip(base.len() as int))
        } else if full[base.len() as int] == '/' {
            Some(full.skip(base.len() as int + 1))
        } else {
            None
        }
    } else {
        None
    }
}

/// Whether `full` starts with `base`.
fn starts_with(full: &str, base: &str) -> (r: bool)
    ensures
        r == (base@.len() <= full@.len() && full@.take(base@.len() as int) == base@),
{
    let lf = full.unicode_len();
    let lb = base.unicode_len();
    if lb > lf {
        return false;
    }
    let mut k: usize = 0;
    while k < lb
        invariant
            lf == full@.len(),
            lb == base@.len(),
            lb <= lf,
            k <= lb,
            forall|m: int| 0 <= m < k ==> base@[m] == full@[m],
        decreases lb - k,
    {
        if base.get_char(k) != full.get_char(k) {
            proof {
                assert(full@.take(lb as int)[k as int] != base@[k as int]);
            }
            return false;
        }
        k = k + 1;
    }
    assert(full@.take(lb as int) =~= base@);
    true
}

/// `full` made relative to the directory `base`.
pub fn relative_to(full: &str, base: &str) -> (r: Option<String>)
    ensures
        r matches Some(s) ==> relative_path(full@, base@) == Some(s@),
        r is None ==> relative_path(full@, base@) is None,
{
    let lf = full.unicode_len();
    let lb = base.unicode_len();
    if lb == 0 {
        return Some(full.to_owned());
    }
    if !starts_with(full, base) {
        proof {
            if full@ == base@ {
                assert(full@.take(lb as int) =~= base@);
            }
        }
        return None;
    }
    if lf == lb {
        proof {
            assert(full@ =~= full@.take(lb as int));
        }
        return Some(String::new());
    }
    proof {
        assert(full@ != base@);
    }
    if base.get_char(lb - 1) == '/' {
        Some(full.substring_char(lb, lf).to_owned())
    } else if full.get_char(lb) == '/' {
        Some(full.substring_char(lb + 1, lf).to_owned())
    } else {
        None
    }
}

} // verus!
