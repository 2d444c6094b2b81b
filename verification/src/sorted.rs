//! Strictly increasing vectors used as ordered sets.
use vstd::prelude::*;

verus! {

pub open spec fn increasing_u32(s: Seq<u32>) -> bool {
    forall|i: int, j: int| 0 <= i < j < s.len() ==> s[i] < s[j]
}

pub open spec fn increasing_i32(s: Seq<i32>) -> bool {
    forall|i: int, j: int| 0 <= i < j < s.len() ==> s[i] < s[j]
}

/// Adds `x` to the ordered set `v`.
pub fn insert_sorted_u32(v: &mut Vec<u32>, x: u32)
    requires
        increasing_u32(old(v)@),
    ensures
        increasing_u32(final(v)@),
        forall|y: u32| #[trigger] final(v)@.contains(y) <==> (old(v)@.contains(y) || y == x),
{
    let n = v.len();
    if n == 0 || v[n - 1] < x {
        let ghost before = v@;
        v.push(x);
        proof {
            assert forall|a: int, b: int| 0 <= a < b < v@.len() implies v@[a] < v@[b] by {
                if b == n {
                    assert(v@[a] == before[a]);
                    if a < n - 1 {
                        assert(before[a] < before[n - 1]);
                    }
                } else {
                    assert(v@[a] == before[a]);
                    assert(v@[b] == before[b]);
                }
            }
            assert forall|y: u32| v@.contains(y) <==> (before.contains(y) || y == x) by {
                if v@.contains(y) {
                    let i = choose|i: int| 0 <= i < v@.len() && v@[i] == y;
                    if i < n {
                        assert(before[i] == y);
                    }
                }
                if before.contains(y) {
                    let i = choose|i: int| 0 <= i < before.len() && before[i] == y;
                    assert(v@[i] == y);
                }
                if y == x {
                    assert(v@[n as int] == y);
                }
            }
            assert(before == old(v)@);
            assert(forall|y: u32| #[trigger] v@.contains(y) <==> (old(v)@.contains(y) || y == x));
        }
        return;
    }
    let mut i: usize = 0;
    while i < n && v[i] < x
        invariant
            0 <= i <= n,
            n == v@.len(),
            forall|j: int| 0 <= j < i ==> v@[j] < x,
        decreases n - i,
    {
        i = i + 1;
    }
    if i < n && v[i] == x {
        assert(v@[i as int] == x);
        assert(v@.contains(x));
        return;
    }
    let ghost before = v@;
    v.insert(i, x);
    proof {
        assert(i < n);
        assert forall|a: int, b: int| 0 <= a < b < v@.len() implies v@[a] < v@[b] by {
            if b < i {
            } else if b == i {
            } else if a < i {
                assert(v@[b] == before[b - 1]);
            } else if a == i {
                assert(v@[b] == before[b - 1]);
                assert(before[i as int] > x);
            } else {
                assert(v@[b] == before[b - 1]);
                assert(v@[a] == before[a - 1]);
            }
        }
        assert forall|y: u32| v@.contains(y) <==> (before.contains(y) || y == x) by {
            if v@.contains(y) {
                let j = choose|j: int| 0 <= j < v@.len() && v@[j] == y;
                if j < i {
                    assert(before[j] == y);
                } else if j > i {
                    assert(before[j - 1] == y);
                }
            }
            if before.contains(y) {
                let j = choose|j: int| 0 <= j < before.len() && before[j] == y;
                if j < i {
                    assert(v@[j] == y);
                } else {
                    assert(v@[j + 1] == y);
                }
            }
            if y == x {
                assert(v@[i as int] == y);
            }
        }
        assert(before == old(v)@);
    }
}

/// Adds `x` to the ordered set `v`.
pub fn insert_sorted_i32(v: &mut Vec<i32>, x: i32)
    requires
        increasing_i32(old(v)@),
    ensures
        increasing_i32(final(v)@),
        forall|y: i32| #[trigger] final(v)@.contains(y) <==> (old(v)@.contains(y) || y == x),
{
    let n = v.len();
    if n == 0 || v[n - 1] < x {
        let ghost before = v@;
        v.push(x);
        proof {
            assert forall|a: int, b: int| 0 <= a < b < v@.len() implies v@[a] < v@[b] by {
                if b == n {
                    assert(v@[a] == before[a]);
                    if a < n - 1 {
                        assert(before[a] < before[n - 1]);
                    }
                } else {
                    assert(v@[a] == before[a]);
                    assert(v@[b] == before[b]);
                }
            }
            assert forall|y: i32| v@.contains(y) <==> (before.contains(y) || y == x) by {
                if v@.contains(y) {
                    let i = choose|i: int| 0 <= i < v@.len() && v@[i] == y;
                    if i < n {
                        assert(before[i] == y);
                    }
                }
                if before.contains(y) {
                    let i = choose|i: int| 0 <= i < before.len() && before[i] == y;
                    assert(v@[i] == y);
                }
                if y == x {
                    assert(v@[n as int] == y);
                }
            }
            assert(before == old(v)@);
            assert(forall|y: i32| #[trigger] v@.contains(y) <==> (old(v)@.contains(y) || y == x));
        }
        return;
    }
    let mut i: usize = 0;
    while i < n && v[i] < x
        invariant
            0 <= i <= n,
            n == v@.len(),
            forall|j: int| 0 <= j < i ==> v@[j] < x,
        decreases n - i,
    {
        i = i + 1;
    }
    if i < n && v[i] == x {
        assert(v@[i as int] == x);
        assert(v@.contains(x));
        return;
    }
    let ghost before = v@;
    v.insert(i, x);
    proof {
        assert(i < n);
        assert forall|a: int, b: int| 0 <= a < b < v@.len() implies v@[a] < v@[b] by {
            if b < i {
            } else if b == i {
            } else if a < i {
                assert(v@[b] == before[b - 1]);
            } else if a == i {
                assert(v@[b] == before[b - 1]);
                assert(before[i as int] > x);
            } else {
                assert(v@[b] == before[b - 1]);
                assert(v@[a] == before[a - 1]);
            }
        }
        assert forall|y: i32| v@.contains(y) <==> (before.contains(y) || y == x) by {
            if v@.contains(y) {
                let j = choose|j: int| 0 <= j < v@.len() && v@[j] == y;
                if j < i {
                    assert(before[j] == y);
                } else if j > i {
                    assert(before[j - 1] == y);
                }
            }
            if before.contains(y) {
                let j = choose|j: int| 0 <= j < before.len() && before[j] == y;
                if j < i {
                    assert(v@[j] == y);
                } else {
                    assert(v@[j + 1] == y);
                }
            }
            if y == x {
                assert(v@[i as int] == y);
            }
        }
        assert(before == old(v)@);
    }
}

/// Two strictly increasing sequences with the same elements are equal.
pub proof fn lemma_increasing_unique_i32(a: Seq<i32>, b: Seq<i32>)
    requires
        increasing_i32(a),
        increasing_i32(b),
        forall|y: i32| a.contains(y) <==> b.contains(y),
    ensures
        a == b,
    decreases a.len() + b.len(),
{
    if a.len() == 0 {
        if b.len() > 0 {
            assert(b.contains(b[0]));
        }
    } else if b.len() == 0 {
        assert(a.contains(a[0]));
    } else {
        assert(a.contains(a[0]));
        assert(b.contains(b[0]));
        let ja = choose|j: int| 0 <= j < a.len() && a[j] == b[0];
        let jb = choose|j: int| 0 <= j < b.len() && b[j] == a[0];
        assert(a[0] == b[0]) by {
            if a[0] < b[0] {
                assert(b[jb] == a[0]);
                if jb > 0 {
                    assert(b[0] < b[jb]);
                }
            } else if a[0] > b[0] {
                assert(a[ja] == b[0]);
                if ja > 0 {
                    assert(a[0] < a[ja]);
                }
            }
        }
        let ra = a.drop_first();
        let rb = b.drop_first();
        assert forall|y: i32| ra.contains(y) <==> rb.contains(y) by {
            if ra.contains(y) {
                let j = choose|j: int| 0 <= j < ra.len() && ra[j] == y;
                assert(a[j + 1] == y);
                assert(a.contains(y));
                let k = choose|k: int| 0 <= k < b.len() && b[k] == y;
                assert(k != 0);
                assert(rb[k - 1] == y);
            }
            if rb.contains(y) {
                let j = choose|j: int| 0 <= j < rb.len() && rb[j] == y;
                assert(b[j + 1] == y);
                assert(b.contains(y));
                let k = choose|k: int| 0 <= k < a.len() && a[k] == y;
                assert(k != 0);
                assert(ra[k - 1] == y);
            }
        }
        lemma_increasing_unique_i32(ra, rb);
        assert(a =~= seq![a[0]] + ra);
        assert(b =~= seq![b[0]] + rb);
    }
}

} // verus!
