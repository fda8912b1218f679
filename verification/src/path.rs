//! Path-segment containment and joining.
//!
//! A capability's scope covers a target exactly when the target is the scope
//! itself or lies below it in the hierarchy; a scope `/cloud` covers
//! `/cloud/aws` but never `/cloud2/x`, so the relation is segment-aware, not
//! a raw string prefix.

use vstd::prelude::*;
use vstd::string::StrSliceExecFns;
use vstd::string::StringExecFns;
use crate::text::push_char;

verus! {

/// Whether `target` equals `scope` or is a descendant of it: `target`
/// extends `scope` and the first extra character starts a new segment
/// (either it is a separator, or the scope already ends in one).
pub open spec fn scope_contains(scope: Seq<char>, target: Seq<char>) -> bool {
    target == scope || (target.len() > scope.len() && target.subrange(0, scope.len() as int)
        == scope && (target[scope.len() as int] == '/' || (scope.len() > 0 && scope.last()
        == '/')))
}

/// The exec counterpart of [`scope_contains`].
pub fn path_contains(scope: &str, target: &str) -> (r: bool)
    ensures
        r == scope_contains(scope@, target@),
{
    let slen = scope.unicode_len();
    let tlen = target.unicode_len();
    if tlen < slen {
        return false;
    }
    let mut i: usize = 0;
    while i < slen
        invariant
            slen == scope@.len(),
            tlen == target@.len(),
            slen <= tlen,
            0 <= i <= slen,
            forall|j: int| 0 <= j < i ==> scope@[j] == target@[j],
        decreases slen - i,
    {
        if scope.get_char(i) != target.get_char(i) {
            proof {
                assert(target@.subrange(0, slen as int)[i as int] != scope@[i as int]);
                assert(target@ != scope@);
            }
            return false;
        }
        i = i + 1;
    }
    if tlen == slen {
        proof {
            assert(scope@ =~= target@);
        }
        return true;
    }
    proof {
        assert(target@.subrange(0, slen as int) =~= scope@);
    }
    if target.get_char(slen) == '/' {
        return true;
    }
    if slen > 0 && scope.get_char(slen - 1) == '/' {
        return true;
    }
    false
}

/// The child path below `parent` named `name`: a separator is inserted
/// unless `parent` already ends in one.
pub open spec fn joined(parent: Seq<char>, name: Seq<char>) -> Seq<char> {
    if parent.len() > 0 && parent.last() == '/' {
        parent + name
    } else {
        parent + seq!['/'] + name
    }
}

/// The exec counterpart of [`joined`].
pub fn path_join(parent: &str, name: &str) -> (r: String)
    ensures
        r@ == joined(parent@, name@),
{
    let mut out = String::new();
    out.append(parent);
    let plen = parent.unicode_len();
    if !(plen > 0 && parent.get_char(plen - 1) == '/') {
        push_char(&mut out, '/');
        proof {
            assert(out@ =~= parent@ + seq!['/']);
        }
    }
    out.append(name);
    proof {
        assert(out@ =~= joined(parent@, name@));
    }
    out
}

/// A scope covers itself and every path formed by descending from it, and
/// never a path that merely extends its last segment with other characters.
pub proof fn lemma_scope_containment(scope: Seq<char>, rest: Seq<char>)
    ensures
        scope_contains(scope, scope),
        scope_contains(scope, scope + seq!['/'] + rest),
{
    let t = scope + seq!['/'] + rest;
    assert(t.subrange(0, scope.len() as int) =~= scope);
    assert(t[scope.len() as int] == '/');
}

/// The negative half of segment awareness: when the scope does not end in a
/// separator and the target's first extra character is no separator, the
/// target is a sibling, not a descendant, and is not covered.
pub proof fn lemma_scope_excludes_sibling(scope: Seq<char>, target: Seq<char>)
    requires
        scope.len() > 0,
        scope.last() != '/',
        target.len() > scope.len(),
        target[scope.len() as int] != '/',
    ensures
        !scope_contains(scope, target),
{
}

} // verus!
