use vstd::prelude::*;

verus! {

/// Pushing a value that a duplicate-free sequence lacks keeps it
/// duplicate-free.
pub proof fn lemma_push_fresh<A>(s: Seq<A>, a: A)
    requires
        s.no_duplicates(),
        !s.contains(a),
    ensures
        s.push(a).no_duplicates(),
        s.push(a).to_set() == s.to_set().insert(a),
{
    let t = s.push(a);
    assert forall|i: int, j: int| 0 <= i < t.len() && 0 <= j < t.len() && i != j implies t[i]
        != t[j] by {
        if i < s.len() && j < s.len() {
        } else if i < s.len() {
            assert(s[i] == t[i]);
        } else {
            assert(s[j] == t[j]);
        }
    }
    assert forall|x: A| t.to_set().contains(x) <==> s.to_set().insert(a).contains(x) by {
        if t.contains(x) {
            let i = choose|i: int| 0 <= i < t.len() && t[i] == x;
            if i < s.len() {
                assert(s[i] == x);
            }
        }
        if s.contains(x) {
            let i = choose|i: int| 0 <= i < s.len() && s[i] == x;
            assert(t[i] == x);
        }
        if x == a {
            assert(t[s.len() as int] == x);
        }
    }
    assert(t.to_set() =~= s.to_set().insert(a));
}

/// Removing one position of a duplicate-free sequence removes exactly the
/// value that stood there.
pub proof fn lemma_remove_unique<A>(s: Seq<A>, at: int)
    requires
        s.no_duplicates(),
        0 <= at < s.len(),
    ensures
        s.remove(at).no_duplicates(),
        !s.remove(at).contains(s[at]),
        s.remove(at).to_set() == s.to_set().remove(s[at]),
{
    let t = s.remove(at);
    assert forall|i: int| 0 <= i < t.len() implies t[i] == s[if i < at { i } else { i + 1 }] by {}
    assert forall|i: int, j: int| 0 <= i < t.len() && 0 <= j < t.len() && i != j implies t[i]
        != t[j] by {
        let si = if i < at { i } else { i + 1 };
        let sj = if j < at { j } else { j + 1 };
        assert(t[i] == s[si] && t[j] == s[sj]);
    }
    assert forall|x: A| t.to_set().contains(x) <==> s.to_set().remove(s[at]).contains(x) by {
        if t.contains(x) {
            let i = choose|i: int| 0 <= i < t.len() && t[i] == x;
            let si = if i < at { i } else { i + 1 };
            assert(s[si] == x);
        }
        if s.contains(x) && x != s[at] {
            let i = choose|i: int| 0 <= i < s.len() && s[i] == x;
            let ti = if i < at { i } else { i - 1 };
            assert(t[ti] == x);
        }
    }
    assert(t.to_set() =~= s.to_set().remove(s[at]));
}

} // verus!
