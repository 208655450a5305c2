use vstd::prelude::*;
use crate::dominance::lemma_bounded_set;

verus! {

/// Every successor named in the adjacency lists is a node.
pub open spec fn adj_ok(adj: Seq<Vec<usize>>) -> bool {
    forall|a: int, k: int| 0 <= a < adj.len() && 0 <= k < adj[a]@.len() ==> #[trigger] adj[a]@[k] < adj.len()
}

/// An edge `a -> b` of the adjacency lists.
pub open spec fn adj_edge(adj: Seq<Vec<usize>>, a: int, b: int) -> bool {
    0 <= a < adj.len() && 0 <= b < adj.len() && exists|k: int| 0 <= k < adj[a]@.len() && adj[a]@[k] as int == b
}

/// `s` holds `start` and is closed under the edges.
pub open spec fn adj_closed(adj: Seq<Vec<usize>>, s: Set<int>, start: int) -> bool {
    &&& s.contains(start)
    &&& forall|a: int, b: int|
        #![trigger s.contains(a), adj_edge(adj, a, b)]
        s.contains(a) && adj_edge(adj, a, b) ==> s.contains(b)
}

/// `x` can be reached from `start`: it lies in every closed set.
pub open spec fn adj_reaches(adj: Seq<Vec<usize>>, start: int, x: int) -> bool {
    forall|s: Set<int>| #[trigger] adj_closed(adj, s, start) ==> s.contains(x)
}

pub open spec fn mutual(adj: Seq<Vec<usize>>, x: int, y: int) -> bool {
    adj_reaches(adj, x, y) && adj_reaches(adj, y, x)
}

/// The nodes reachable from `start`.
pub fn reach_from(adj: &Vec<Vec<usize>>, start: usize) -> (r: Vec<bool>)
    requires
        adj_ok(adj@),
        start < adj@.len(),
    ensures
        r@.len() == adj@.len(),
        forall|x: int| 0 <= x < adj@.len() ==> (r@[x] <==> adj_reaches(adj@, start as int, x)),
{
    let n = adj.len();
    let mut visited: Vec<bool> = Vec::new();
    let mut i: usize = 0;
    while i < n
        invariant
            i <= n,
            visited@.len() == i,
            forall|j: int| 0 <= j < i ==> !visited@[j],
        decreases n - i,
    {
        visited.push(false);
        i += 1;
    }
    let mut stack: Vec<usize> = Vec::new();
    let ghost mut seen: Set<int> = Set::empty();
    {
        visited.set(start, true);
        stack.push(start);
        proof {
            seen = seen.insert(start as int);
            assert(stack@[0] == start);
        }
    }
    proof {
        lemma_bounded_set(seen, n as int);
    }
    while stack.len() > 0
        invariant
            adj_ok(adj@),
            n == adj@.len(),
            start < n,
            visited@.len() == n,
            forall|x: int| 0 <= x < n ==> (visited@[x] <==> seen.contains(x)),
            forall|x: int| seen.contains(x) ==> 0 <= x < n,
            seen.finite(),
            seen.len() <= n,
            stack@.no_duplicates(),
            stack@.len() <= seen.len(),
            forall|j: int| 0 <= j < stack@.len() ==> seen.contains(#[trigger] stack@[j] as int),
            seen.contains(start as int),
            forall|x: int|
                seen.contains(x) ==> adj_reaches(adj@, start as int, x),
            forall|a: int, b: int|
                #![trigger seen.contains(a), adj_edge(adj@, a, b)]
                seen.contains(a) && !stack@.contains(a as usize) && adj_edge(adj@, a, b)  ==> seen.contains(b),
        decreases 2 * (n - seen.len()) + stack@.len(),
    {
        let ghost st0 = stack@;
        let a = stack.pop().unwrap();
        proof {
            assert(seen.contains(a as int)) by {
                assert(st0.last() == a);
                assert(st0[st0.len() - 1] == a);
            }
            assert(!stack@.contains(a)) by {
                if stack@.contains(a) {
                    let j = choose|j: int| 0 <= j < stack@.len() && stack@[j] == a;
                    assert(st0[j] == st0[st0.len() - 1]);
                }
            }
            assert forall|a2: int, b: int|
                #![trigger seen.contains(a2), adj_edge(adj@, a2, b)]
                seen.contains(a2) && a2 != a && !stack@.contains(a2 as usize) && adj_edge(adj@, a2, b)
                     implies seen.contains(b) by {
                if st0.contains(a2 as usize) {
                    let j = choose|j: int| 0 <= j < st0.len() && st0[j] == a2 as usize;
                    assert(j != st0.len() - 1);
                    assert(stack@[j] == a2 as usize);
                }
            }
        }
        let s = &adj[a];
        let ghost seen0 = seen;
        let ghost len0 = stack@.len();
        let mut k: usize = 0;
        while k < s.len()
            invariant
                adj_ok(adj@),
                n == adj@.len(),
                a < n,
                s@ == adj@[a as int]@,
                k <= s@.len(),
                visited@.len() == n,
                forall|x: int| 0 <= x < n ==> (visited@[x] <==> seen.contains(x)),
                forall|x: int| seen.contains(x) ==> 0 <= x < n,
                seen.finite(),
                seen.len() <= n,
                seen0.subset_of(seen),
                seen0.contains(a as int),
                stack@.len() - len0 == seen.len() - seen0.len(),
                stack@.len() >= len0,
                stack@.no_duplicates(),
                !stack@.contains(a),
                forall|j: int| 0 <= j < stack@.len() ==> seen.contains(#[trigger] stack@[j] as int),
                seen.contains(start as int),
                forall|x: int|
                    seen.contains(x) ==> adj_reaches(adj@, start as int, x),
                forall|j: int| 0 <= j < k  ==> seen.contains(#[trigger] s@[j] as int),
                forall|a2: int, b: int|
                    #![trigger seen.contains(a2), adj_edge(adj@, a2, b)]
                    seen.contains(a2) && a2 != a && !stack@.contains(a2 as usize) && adj_edge(adj@, 
                        a2,
                        b,
                    )  ==> seen.contains(b),
            decreases s@.len() - k,
        {
            let b = s[k];
            proof {
                assert(b < n);
                assert(adj_edge(adj@, a as int, b as int));
            }
            if !visited[b] {
                proof {
                    assert forall|t: Set<int>|
                        #[trigger] adj_closed(adj@, t, start as int) implies t.contains(
                        b as int,
                    ) by {
                        assert(adj_reaches(adj@, start as int, a as int));
                        assert(t.contains(a as int));
                    }
                    lemma_bounded_set(seen.insert(b as int), n as int);
                    assert(!stack@.contains(b)) by {
                        if stack@.contains(b) {
                            let j = choose|j: int| 0 <= j < stack@.len() && stack@[j] == b;
                            assert(seen.contains(stack@[j] as int));
                        }
                    }
                    seen = seen.insert(b as int);
                }
                visited.set(b, true);
                let ghost st1 = stack@;
                stack.push(b);
                proof {
                    assert forall|j: int| 0 <= j < stack@.len() implies seen.contains(
                        #[trigger] stack@[j] as int,
                    ) by {
                        if j < stack@.len() - 1 {
                            assert(stack@[j] == st1[j]);
                        }
                    }
                    assert forall|a2: int, b2: int|
                        #![trigger seen.contains(a2), adj_edge(adj@, a2, b2)]
                        seen.contains(a2) && a2 != a && !stack@.contains(a2 as usize)
                            && adj_edge(adj@, a2, b2) implies seen.contains(b2) by {
                        if a2 != b as int {
                            assert(!st1.contains(a2 as usize)) by {
                                if st1.contains(a2 as usize) {
                                    let j = choose|j: int|
                                        0 <= j < st1.len() && st1[j] == a2
                                            as usize;
                                    assert(stack@[j] == a2 as usize);
                                }
                            }
                        } else {
                            assert(stack@.last() == b);
                        }
                    }
                }
            }
            k += 1;
        }
    }
    proof {
        assert(adj_closed(adj@, seen, start as int)) by {
            assert forall|a: int, b: int|
                #![trigger seen.contains(a), adj_edge(adj@, a, b)]
                seen.contains(a) && adj_edge(adj@, a, b)  implies seen.contains(b) by {
                assert(!stack@.contains(a as usize));
            }
        }
        assert forall|x: int| 0 <= x < n implies (visited@[x] <==> adj_reaches(adj@, start as int, x)) by {
            if !visited@[x] {
                assert(adj_closed(adj@, seen, start as int));
                assert(!seen.contains(x));
                if adj_reaches(adj@, start as int, x) {
                    assert(seen.contains(x));
                }
            } else {
                assert(seen.contains(x));
            }
        }
    }
    visited
}




proof fn lemma_reaches_refl(adj: Seq<Vec<usize>>, x: int)
    ensures
        adj_reaches(adj, x, x),
{
}

proof fn lemma_reaches_trans(adj: Seq<Vec<usize>>, a: int, b: int, c: int)
    requires
        adj_reaches(adj, a, b),
        adj_reaches(adj, b, c),
    ensures
        adj_reaches(adj, a, c),
{
    assert forall|s: Set<int>| #[trigger] adj_closed(adj, s, a) implies s.contains(c) by {
        assert(s.contains(b));
        assert(adj_closed(adj, s, b));
    }
}

/// The strongly connected components: `r.0[x]` is the component of node `x`,
/// numbered `0..r.1`; two nodes share a
/// component exactly when each reaches the other.
pub fn scc_ids(adj: &Vec<Vec<usize>>) -> (r: (Vec<usize>, usize))
    requires
        adj_ok(adj@),
    ensures
        r.0@.len() == adj@.len(),
        r.1 <= adj@.len(),
        forall|x: int| 0 <= x < adj@.len() ==> #[trigger] r.0@[x] < r.1,
        forall|x: int, y: int|
            0 <= x < adj@.len() && 0 <= y < adj@.len() ==> (#[trigger] r.0@[x] == #[trigger] r.0@[y]
                <==> mutual(adj@, x, y)),
{
    let n = adj.len();
    let mut reach: Vec<Vec<bool>> = Vec::new();
    let mut x: usize = 0;
    while x < n
        invariant
            adj_ok(adj@),
            n == adj@.len(),
            x <= n,
            reach@.len() == x,
            forall|a: int| 0 <= a < x ==> (#[trigger] reach@[a])@.len() == n,
            forall|a: int, b: int|
                0 <= a < x && 0 <= b < n ==> (#[trigger] reach@[a]@[b] <==> adj_reaches(adj@, a, b)),
        decreases n - x,
    {
        reach.push(reach_from(adj, x));
        x += 1;
    }
    let mut comp: Vec<usize> = Vec::new();
    let mut i: usize = 0;
    while i < n
        invariant
            i <= n,
            comp@.len() == i,
            forall|a: int| 0 <= a < i ==> comp@[a] == n,
        decreases n - i,
    {
        comp.push(n);
        i += 1;
    }
    let mut next: usize = 0;
    let mut x: usize = 0;
    while x < n
        invariant
            adj_ok(adj@),
            n == adj@.len(),
            x <= n,
            next <= x,
            reach@.len() == n,
            forall|a: int| 0 <= a < n ==> (#[trigger] reach@[a])@.len() == n,
            forall|a: int, b: int|
                0 <= a < n && 0 <= b < n ==> (#[trigger] reach@[a]@[b] <==> adj_reaches(adj@, a, b)),
            comp@.len() == n,
            forall|a: int| 0 <= a < n ==> #[trigger] comp@[a] == n || comp@[a] < next,
            forall|a: int| 0 <= a < x ==> #[trigger] comp@[a] < next,
            forall|a: int, b: int|
                0 <= a < n && 0 <= b < n && comp@[a] < n && comp@[b] < n ==> (#[trigger] comp@[a]
                    == #[trigger] comp@[b] <==> mutual(adj@, a, b)),
            forall|a: int, b: int|
                0 <= a < n && 0 <= b < n && #[trigger] comp@[a] < n && mutual(adj@, a, b) ==> #[trigger] comp@[b] < n,
        decreases n - x,
    {
        if comp[x] == n {
            proof {
                assert forall|b: int| 0 <= b < n && mutual(adj@, x as int, b) implies comp@[b] == n by {
                    if comp@[b] < n {
                        assert(mutual(adj@, b, x as int));
                    }
                }
            }
            let ghost c0 = comp@;
            let mut y: usize = 0;
            while y < n
                invariant
                    adj_ok(adj@),
                    n == adj@.len(),
                    x < n,
                    y <= n,
                    next <= x,
                    reach@.len() == n,
                    forall|a: int| 0 <= a < n ==> (#[trigger] reach@[a])@.len() == n,
                    forall|a: int, b: int|
                        0 <= a < n && 0 <= b < n ==> (#[trigger] reach@[a]@[b] <==> adj_reaches(adj@, a, b)),
                    comp@.len() == n,
                    c0.len() == n,
                    forall|a: int| 0 <= a < n && mutual(adj@, x as int, a) ==> c0[a] == n,
                    forall|a: int| 0 <= a < y ==> (#[trigger] comp@[a] == (if mutual(adj@, x as int, a) { next } else { c0[a] })),
                    forall|a: int| y <= a < n ==> #[trigger] comp@[a] == c0[a],
                decreases n - y,
            {
                if reach[x][y] && reach[y][x] {
                    comp.set(y, next);
                }
                y += 1;
            }
            proof {
                lemma_reaches_refl(adj@, x as int);
                assert forall|a: int, b: int|
                    0 <= a < n && 0 <= b < n && comp@[a] < n && comp@[b] < n implies (#[trigger] comp@[a]
                        == #[trigger] comp@[b] <==> mutual(adj@, a, b)) by {
                    let ma = mutual(adj@, x as int, a);
                    let mb = mutual(adj@, x as int, b);
                    if ma && mb {
                        lemma_reaches_trans(adj@, a, x as int, b);
                        lemma_reaches_trans(adj@, b, x as int, a);
                    } else if ma && !mb {
                        if mutual(adj@, a, b) {
                            lemma_reaches_trans(adj@, x as int, a, b);
                            lemma_reaches_trans(adj@, b, a, x as int);
                        }
                    } else if !ma && mb {
                        if mutual(adj@, a, b) {
                            lemma_reaches_trans(adj@, x as int, b, a);
                            lemma_reaches_trans(adj@, a, b, x as int);
                        }
                    }
                }
                assert forall|a: int, b: int|
                    0 <= a < n && 0 <= b < n && #[trigger] comp@[a] < n && mutual(adj@, a, b) implies #[trigger] comp@[b] < n by {
                    if mutual(adj@, x as int, a) {
                        lemma_reaches_trans(adj@, x as int, a, b);
                        lemma_reaches_trans(adj@, b, a, x as int);
                    }
                }
            }
            next = next + 1;
        }
        x += 1;
    }
    (comp, next)
}

} // verus!
