use vstd::prelude::*;
use vstd::set_lib::*;
use crate::cfg::{Body, successors};

verus! {

/// `s` holds `start` (unless it is `avoid`) and is closed under the edges
/// that do not enter `avoid`.
pub open spec fn closed_avoiding(body: Body, s: Set<int>, start: int, avoid: int) -> bool {
    &&& start != avoid ==> s.contains(start)
    &&& forall|a: int, b: int|
        #![trigger s.contains(a), body.edge(a, b)]
        s.contains(a) && body.edge(a, b) && b != avoid ==> s.contains(b)
}

/// `x` can be reached from `start` along edges without passing through `avoid`:
/// it lies in every set that `closed_avoiding` describes.
pub open spec fn reaches_avoiding(body: Body, start: int, x: int, avoid: int) -> bool {
    forall|s: Set<int>| #[trigger] closed_avoiding(body, s, start, avoid) ==> s.contains(x)
}

/// `x` can be reached from the entry block.
pub open spec fn reachable(body: Body, x: int) -> bool {
    reaches_avoiding(body, 0, x, body.n())
}

/// `d` dominates `x`: every path from the entry to `x` passes through `d`.
pub open spec fn dominates(body: Body, d: int, x: int) -> bool {
    d == x || !reaches_avoiding(body, 0, x, d)
}

pub open spec fn strictly_dominates(body: Body, d: int, x: int) -> bool {
    d != x && dominates(body, d, x)
}

/// `d` is the immediate dominator of `x`: a strict dominator of `x` that
/// every other strict dominator of `x` dominates.
pub open spec fn is_idom(body: Body, d: int, x: int) -> bool {
    &&& 0 <= d < body.n()
    &&& strictly_dominates(body, d, x)
    &&& forall|e: int|
        0 <= e < body.n() && #[trigger] strictly_dominates(body, e, x) ==> dominates(body, e, d)
}

/// `x` is in the dominance frontier of `b`: `b` dominates a reachable
/// predecessor of `x` but does not strictly dominate `x`.
pub open spec fn in_frontier(body: Body, b: int, x: int) -> bool {
    &&& exists|p: int|
        #![trigger body.edge(p, x)]
        body.edge(p, x) && reachable(body, p) && dominates(body, b, p)
    &&& !strictly_dominates(body, b, x)
}

pub proof fn lemma_bounded_set(s: Set<int>, n: int)
    requires
        0 <= n,
        forall|i: int| s.contains(i) ==> 0 <= i < n,
    ensures
        s.finite(),
        s.len() <= n,
{
    lemma_int_range(0, n);
    lemma_len_subset(s, set_int_range(0, n));
}

/// The blocks reachable from `start` without passing through `avoid`
/// (an `avoid` out of range avoids nothing).
pub fn reach_set(body: &Body, start: usize, avoid: usize) -> (r: Vec<bool>)
    requires
        body.wf(),
        start < body.n(),
    ensures
        r@.len() == body.n(),
        forall|x: int|
            0 <= x < body.n() ==> (r@[x] <==> reaches_avoiding(*body, start as int, x, avoid as int)),
{
    let n = body.blocks.len();
    let mut visited: Vec<bool> = Vec::new();
    let mut i: usize = 0;
    while i < n
        invariant
            i <= n,
            visited@.len() == i,
            forall|j: int| 0 <= j < i ==> !visited@[j],
        decreases n - i,
    {
        visited.push(false);
        i += 1;
    }
    let mut stack: Vec<usize> = Vec::new();
    let ghost mut seen: Set<int> = Set::empty();
    if start != avoid {
        visited.set(start, true);
        stack.push(start);
        proof {
            seen = seen.insert(start as int);
            assert(stack@[0] == start);
        }
    }
    proof {
        lemma_bounded_set(seen, n as int);
    }
    while stack.len() > 0
        invariant
            body.wf(),
            n == body.n(),
            start < n,
            visited@.len() == n,
            forall|x: int| 0 <= x < n ==> (visited@[x] <==> seen.contains(x)),
            forall|x: int| seen.contains(x) ==> 0 <= x < n,
            seen.finite(),
            seen.len() <= n,
            stack@.no_duplicates(),
            stack@.len() <= seen.len(),
            forall|j: int| 0 <= j < stack@.len() ==> seen.contains(#[trigger] stack@[j] as int),
            start != avoid ==> seen.contains(start as int),
            forall|x: int|
                seen.contains(x) ==> reaches_avoiding(*body, start as int, x, avoid as int),
            forall|a: int, b: int|
                #![trigger seen.contains(a), body.edge(a, b)]
                seen.contains(a) && !stack@.contains(a as usize) && body.edge(a, b) && b
                    != avoid ==> seen.contains(b),
        decreases 2 * (n - seen.len()) + stack@.len(),
    {
        let ghost st0 = stack@;
        let a = stack.pop().unwrap();
        proof {
            assert(seen.contains(a as int)) by {
                assert(st0.last() == a);
                assert(st0[st0.len() - 1] == a);
            }
            assert(!stack@.contains(a)) by {
                if stack@.contains(a) {
                    let j = choose|j: int| 0 <= j < stack@.len() && stack@[j] == a;
                    assert(st0[j] == st0[st0.len() - 1]);
                }
            }
            assert forall|a2: int, b: int|
                #![trigger seen.contains(a2), body.edge(a2, b)]
                seen.contains(a2) && a2 != a && !stack@.contains(a2 as usize) && body.edge(a2, b)
                    && b != avoid implies seen.contains(b) by {
                if st0.contains(a2 as usize) {
                    let j = choose|j: int| 0 <= j < st0.len() && st0[j] == a2 as usize;
                    assert(j != st0.len() - 1);
                    assert(stack@[j] == a2 as usize);
                }
            }
        }
        let s = successors(&body.blocks[a].terminator);
        let ghost seen0 = seen;
        let ghost len0 = stack@.len();
        let mut k: usize = 0;
        while k < s.len()
            invariant
                body.wf(),
                n == body.n(),
                a < n,
                s@ == body.succs(a as int),
                k <= s@.len(),
                visited@.len() == n,
                forall|x: int| 0 <= x < n ==> (visited@[x] <==> seen.contains(x)),
                forall|x: int| seen.contains(x) ==> 0 <= x < n,
                seen.finite(),
                seen.len() <= n,
                seen0.subset_of(seen),
                seen0.contains(a as int),
                stack@.len() - len0 == seen.len() - seen0.len(),
                stack@.len() >= len0,
                stack@.no_duplicates(),
                !stack@.contains(a),
                forall|j: int| 0 <= j < stack@.len() ==> seen.contains(#[trigger] stack@[j] as int),
                start != avoid ==> seen.contains(start as int),
                forall|x: int|
                    seen.contains(x) ==> reaches_avoiding(*body, start as int, x, avoid as int),
                forall|j: int| 0 <= j < k && s@[j] != avoid ==> seen.contains(#[trigger] s@[j] as int),
                forall|a2: int, b: int|
                    #![trigger seen.contains(a2), body.edge(a2, b)]
                    seen.contains(a2) && a2 != a && !stack@.contains(a2 as usize) && body.edge(
                        a2,
                        b,
                    ) && b != avoid ==> seen.contains(b),
            decreases s@.len() - k,
        {
            let b = s[k];
            proof {
                assert(b < n) by {
                    assert(body.block_successors_ok(a as int));
                }
                assert(body.edge(a as int, b as int));
            }
            if b != avoid && !visited[b] {
                proof {
                    assert forall|t: Set<int>|
                        #[trigger] closed_avoiding(*body, t, start as int, avoid as int) implies t.contains(
                        b as int,
                    ) by {
                        assert(reaches_avoiding(*body, start as int, a as int, avoid as int));
                        assert(t.contains(a as int));
                    }
                    lemma_bounded_set(seen.insert(b as int), n as int);
                    assert(!stack@.contains(b)) by {
                        if stack@.contains(b) {
                            let j = choose|j: int| 0 <= j < stack@.len() && stack@[j] == b;
                            assert(seen.contains(stack@[j] as int));
                        }
                    }
                    seen = seen.insert(b as int);
                }
                visited.set(b, true);
                let ghost st1 = stack@;
                stack.push(b);
                proof {
                    assert forall|j: int| 0 <= j < stack@.len() implies seen.contains(
                        #[trigger] stack@[j] as int,
                    ) by {
                        if j < stack@.len() - 1 {
                            assert(stack@[j] == st1[j]);
                        }
                    }
                    assert forall|a2: int, b2: int|
                        #![trigger seen.contains(a2), body.edge(a2, b2)]
                        seen.contains(a2) && a2 != a && !stack@.contains(a2 as usize)
                            && body.edge(a2, b2) && b2 != avoid implies seen.contains(b2) by {
                        if a2 != b as int {
                            assert(!st1.contains(a2 as usize)) by {
                                if st1.contains(a2 as usize) {
                                    let j = choose|j: int|
                                        0 <= j < st1.len() && st1[j] == a2
                                            as usize;
                                    assert(stack@[j] == a2 as usize);
                                }
                            }
                        } else {
                            assert(stack@.last() == b);
                        }
                    }
                }
            }
            k += 1;
        }
    }
    proof {
        assert(closed_avoiding(*body, seen, start as int, avoid as int)) by {
            assert forall|a: int, b: int|
                #![trigger seen.contains(a), body.edge(a, b)]
                seen.contains(a) && body.edge(a, b) && b != avoid implies seen.contains(b) by {
                assert(!stack@.contains(a as usize));
            }
        }
        assert forall|x: int| 0 <= x < n implies (visited@[x] <==> reaches_avoiding(
            *body,
            start as int,
            x,
            avoid as int,
        )) by {
            if !visited@[x] {
                assert(closed_avoiding(*body, seen, start as int, avoid as int));
                assert(!seen.contains(x));
                if reaches_avoiding(*body, start as int, x, avoid as int) {
                    assert(seen.contains(x));
                }
            } else {
                assert(seen.contains(x));
            }
        }
    }
    visited
}


/// Dominance facts of one body: the dominance relation, reachability from the
/// entry, immediate dominators and dominance frontiers, all by block index.
pub struct DominatorTree {
    /// `dom[d][x]`: `d` dominates `x`.
    pub dom: Vec<Vec<bool>>,
    /// `reach[x]`: `x` is reachable from the entry.
    pub reach: Vec<bool>,
    pub idom: Vec<Option<usize>>,
    /// `frontier[b][x]`: `x` is in the dominance frontier of `b`.
    pub frontier: Vec<Vec<bool>>,
}

pub open spec fn square(m: Seq<Vec<bool>>, n: int) -> bool {
    m.len() == n && forall|i: int| 0 <= i < n ==> (#[trigger] m[i])@.len() == n
}

impl DominatorTree {
    pub open spec fn n(self) -> int {
        self.dom@.len() as int
    }

    pub open spec fn dom_of(self, d: int, x: int) -> bool {
        self.dom@[d]@[x]
    }

    /// The tables hold exactly the dominance facts of `body`.
    pub open spec fn describes(self, body: Body) -> bool {
        let n = body.n();
        &&& square(self.dom@, n)
        &&& square(self.frontier@, n)
        &&& self.reach@.len() == n
        &&& self.idom@.len() == n
        &&& forall|d: int, x: int|
            0 <= d < n && 0 <= x < n ==> (#[trigger] self.dom@[d]@[x] == dominates(body, d, x))
        &&& forall|x: int| 0 <= x < n ==> (#[trigger] self.reach@[x] == reachable(body, x))
        &&& forall|b: int, x: int|
            0 <= b < n && 0 <= x < n ==> (#[trigger] self.frontier@[b]@[x] == in_frontier(
                body,
                b,
                x,
            ))
        &&& forall|x: int|
            0 <= x < n ==> match #[trigger] self.idom@[x] {
                Some(d) => is_idom(body, d as int, x),
                None => forall|d: int| 0 <= d < n ==> !is_idom(body, d, x),
            }
    }

    /// Computes the dominance facts of a well-formed body.
    pub fn new(body: &Body) -> (r: DominatorTree)
        requires
            body.wf(),
        ensures
            r.describes(*body),
    {
        let n = body.blocks.len();
        let reach = reach_set(body, 0, n);
        let mut dom: Vec<Vec<bool>> = Vec::new();
        let mut d: usize = 0;
        while d < n
            invariant
                body.wf(),
                n == body.n(),
                d <= n,
                dom@.len() == d,
                forall|i: int| 0 <= i < d ==> (#[trigger] dom@[i])@.len() == n,
                forall|i: int, x: int|
                    0 <= i < d && 0 <= x < n ==> (#[trigger] dom@[i]@[x] == dominates(
                        *body,
                        i,
                        x,
                    )),
            decreases n - d,
        {
            let rd = reach_set(body, 0, d);
            let mut row: Vec<bool> = Vec::new();
            let mut x: usize = 0;
            while x < n
                invariant
                    n == body.n(),
                    d < n,
                    x <= n,
                    rd@.len() == n,
                    forall|y: int|
                        0 <= y < n ==> (rd@[y] <==> reaches_avoiding(*body, 0, y, d as int)),
                    row@.len() == x,
                    forall|y: int| 0 <= y < x ==> (row@[y] == dominates(*body, d as int, y)),
                decreases n - x,
            {
                row.push(d == x || !rd[x]);
                x += 1;
            }
            dom.push(row);
            d += 1;
        }
        let idom = Self::immediate_dominators(body, &dom);
        let frontier = Self::frontiers(body, &dom, &reach);
        DominatorTree { dom, reach, idom, frontier }
    }

    fn immediate_dominators(body: &Body, dom: &Vec<Vec<bool>>) -> (r: Vec<Option<usize>>)
        requires
            square(dom@, body.n()),
            forall|d: int, x: int|
                0 <= d < body.n() && 0 <= x < body.n() ==> (#[trigger] dom@[d]@[x] == dominates(
                    *body,
                    d,
                    x,
                )),
        ensures
            r@.len() == body.n(),
            forall|x: int|
                0 <= x < body.n() ==> match #[trigger] r@[x] {
                    Some(d) => is_idom(*body, d as int, x),
                    None => forall|d: int| 0 <= d < body.n() ==> !is_idom(*body, d, x),
                },
    {
        let n = dom.len();
        let mut r: Vec<Option<usize>> = Vec::new();
        let mut x: usize = 0;
        while x < n
            invariant
                n == body.n(),
                square(dom@, body.n()),
                forall|d: int, y: int|
                    0 <= d < n && 0 <= y < n ==> (#[trigger] dom@[d]@[y] == dominates(
                        *body,
                        d,
                        y,
                    )),
                x <= n,
                r@.len() == x,
                forall|y: int|
                    0 <= y < x ==> match #[trigger] r@[y] {
                        Some(d) => is_idom(*body, d as int, y),
                        None => forall|d: int| 0 <= d < n ==> !is_idom(*body, d, y),
                    },
            decreases n - x,
        {
            let mut found: Option<usize> = None;
            let mut d: usize = 0;
            while d < n && found.is_none()
                invariant
                    n == body.n(),
                    x < n,
                    square(dom@, body.n()),
                    forall|d2: int, y: int|
                        0 <= d2 < n && 0 <= y < n ==> (#[trigger] dom@[d2]@[y] == dominates(
                            *body,
                            d2,
                            y,
                        )),
                    d <= n,
                    match found {
                        Some(c) => is_idom(*body, c as int, x as int),
                        None => forall|c: int| 0 <= c < d ==> !is_idom(*body, c, x as int),
                    },
                decreases n - d,
            {
                if d != x && dom[d][x] {
                    let mut ok = true;
                    let mut e: usize = 0;
                    while e < n && ok
                        invariant
                            n == body.n(),
                            x < n,
                            d < n,
                            square(dom@, body.n()),
                            forall|d2: int, y: int|
                                0 <= d2 < n && 0 <= y < n ==> (#[trigger] dom@[d2]@[y]
                                    == dominates(*body, d2, y)),
                            e <= n,
                            ok ==> forall|f: int|
                                0 <= f < e && #[trigger] strictly_dominates(*body, f, x as int)
                                    ==> dominates(*body, f, d as int),
                            !ok ==> exists|f: int|
                                0 <= f < n && #[trigger] strictly_dominates(*body, f, x as int)
                                    && !dominates(*body, f, d as int),
                        decreases n - e,
                    {
                        if e != x && dom[e][x] && !dom[e][d] {
                            assert(strictly_dominates(*body, e as int, x as int));
                            ok = false;
                        }
                        e += 1;
                    }
                    if ok {
                        found = Some(d);
                    }
                }
                d += 1;
            }
            r.push(found);
            x += 1;
        }
        r
    }

    fn frontiers(body: &Body, dom: &Vec<Vec<bool>>, reach: &Vec<bool>) -> (r: Vec<Vec<bool>>)
        requires
            body.wf(),
            square(dom@, body.n()),
            reach@.len() == body.n(),
            forall|x: int| 0 <= x < body.n() ==> (#[trigger] reach@[x] == reachable(*body, x)),
            forall|d: int, x: int|
                0 <= d < body.n() && 0 <= x < body.n() ==> (#[trigger] dom@[d]@[x] == dominates(
                    *body,
                    d,
                    x,
                )),
        ensures
            square(r@, body.n()),
            forall|b: int, x: int|
                0 <= b < body.n() && 0 <= x < body.n() ==> (#[trigger] r@[b]@[x] == in_frontier(
                    *body,
                    b,
                    x,
                )),
    {
        let n = dom.len();
        let mut r: Vec<Vec<bool>> = Vec::new();
        let mut b: usize = 0;
        while b < n
            invariant
                body.wf(),
                n == body.n(),
                square(dom@, body.n()),
                reach@.len() == n,
                forall|x: int| 0 <= x < n ==> (#[trigger] reach@[x] == reachable(*body, x)),
                forall|d: int, y: int|
                    0 <= d < n && 0 <= y < n ==> (#[trigger] dom@[d]@[y] == dominates(
                        *body,
                        d,
                        y,
                    )),
                b <= n,
                r@.len() == b,
                forall|i: int| 0 <= i < b ==> (#[trigger] r@[i])@.len() == n,
                forall|i: int, x: int|
                    0 <= i < b && 0 <= x < n ==> (#[trigger] r@[i]@[x] == in_frontier(
                        *body,
                        i,
                        x,
                    )),
            decreases n - b,
        {
            let mut row: Vec<bool> = Vec::new();
            let mut x: usize = 0;
            while x < n
                invariant
                    body.wf(),
                    n == body.n(),
                    b < n,
                    square(dom@, body.n()),
                    reach@.len() == n,
                    forall|y: int| 0 <= y < n ==> (#[trigger] reach@[y] == reachable(*body, y)),
                    forall|d: int, y: int|
                        0 <= d < n && 0 <= y < n ==> (#[trigger] dom@[d]@[y] == dominates(
                            *body,
                            d,
                            y,
                        )),
                    x <= n,
                    row@.len() == x,
                    forall|y: int| 0 <= y < x ==> (row@[y] == in_frontier(*body, b as int, y)),
                decreases n - x,
            {
                let mut hit = false;
                let mut p: usize = 0;
                while p < n && !hit
                    invariant
                        body.wf(),
                        n == body.n(),
                        b < n,
                        x < n,
                        square(dom@, body.n()),
                        reach@.len() == n,
                        forall|y: int| 0 <= y < n ==> (#[trigger] reach@[y] == reachable(*body, y)),
                        forall|d: int, y: int|
                            0 <= d < n && 0 <= y < n ==> (#[trigger] dom@[d]@[y] == dominates(
                                *body,
                                d,
                                y,
                            )),
                        p <= n,
                        hit ==> exists|q: int|
                            #![trigger body.edge(q, x as int)]
                            body.edge(q, x as int) && reachable(*body, q) && dominates(
                                *body,
                                b as int,
                                q,
                            ),
                        !hit ==> forall|q: int|
                            #![trigger body.edge(q, x as int)]
                            0 <= q < p ==> !(body.edge(q, x as int) && reachable(*body, q)
                                && dominates(*body, b as int, q)),
                    decreases n - p,
                {
                    if reach[p] && dom[b][p] && body.has_edge(p, x) {
                        hit = true;
                    }
                    p += 1;
                }
                let sdom = b != x && dom[b][x];
                row.push(hit && !sdom);
                x += 1;
            }
            r.push(row);
            b += 1;
        }
        r
    }

    /// Whether block `a` dominates block `b`.
    pub fn dominates(&self, a: usize, b: usize) -> (r: bool)
        requires
            a < self.n(),
            b < self.n(),
            square(self.dom@, self.n()),
        ensures
            r == self.dom_of(a as int, b as int),
    {
        self.dom[a][b]
    }

    /// The immediate dominator of `x`; `None` for the entry and for unreachable blocks.
    pub fn immediate_dominator(&self, x: usize) -> (r: Option<usize>)
        requires
            x < self.idom@.len(),
        ensures
            r == self.idom@[x as int],
    {
        self.idom[x]
    }

    /// The dominance frontier of `b`, in increasing block order.
    pub fn frontier_of(&self, b: usize) -> (r: Vec<usize>)
        requires
            b < self.n(),
            square(self.frontier@, self.n()),
        ensures
            forall|j: int| 0 <= j < r@.len() ==> r@[j] < self.n() && self.frontier@[b as int]@[r@[j] as int],
            forall|x: int| 0 <= x < self.n() && self.frontier@[b as int]@[x] ==> r@.contains(x as usize),
            forall|i: int, j: int| 0 <= i < j < r@.len() ==> r@[i] < r@[j],
    {
        let row = &self.frontier[b];
        let mut r: Vec<usize> = Vec::new();
        let mut x: usize = 0;
        while x < row.len()
            invariant
                row@ == self.frontier@[b as int]@,
                row@.len() == self.n(),
                x <= row@.len(),
                forall|j: int| 0 <= j < r@.len() ==> r@[j] < x && row@[r@[j] as int],
                forall|y: int| 0 <= y < x && row@[y] ==> r@.contains(y as usize),
                forall|i: int, j: int| 0 <= i < j < r@.len() ==> r@[i] < r@[j],
            decreases row@.len() - x,
        {
            let ghost r0 = r@;
            if row[x] {
                r.push(x);
                assert(r@[r@.len() - 1] == x);
                assert forall|y: int| 0 <= y < x && #[trigger] r0.contains(y as usize) implies r@.contains(
                    y as usize,
                ) by {
                    let j = choose|j: int| 0 <= j < r0.len() && r0[j] == y as usize;
                    assert(r@[j] == y as usize);
                }
            }
            x += 1;
        }
        r
    }

    /// The children of `b` in the dominator tree, in increasing block order.
    pub fn children(&self, b: usize) -> (r: Vec<usize>)
        ensures
            forall|j: int| 0 <= j < r@.len() ==> r@[j] < self.idom@.len() && self.idom@[r@[j] as int] == Some(b),
            forall|x: int| 0 <= x < self.idom@.len() && self.idom@[x] == Some(b) ==> r@.contains(x as usize),
            forall|i: int, j: int| 0 <= i < j < r@.len() ==> r@[i] < r@[j],
    {
        let mut r: Vec<usize> = Vec::new();
        let mut x: usize = 0;
        while x < self.idom.len()
            invariant
                x <= self.idom@.len(),
                forall|j: int| 0 <= j < r@.len() ==> r@[j] < x && self.idom@[r@[j] as int] == Some(b),
                forall|y: int| 0 <= y < x && self.idom@[y] == Some(b) ==> r@.contains(y as usize),
                forall|i: int, j: int| 0 <= i < j < r@.len() ==> r@[i] < r@[j],
            decreases self.idom@.len() - x,
        {
            let ghost r0 = r@;
            if self.idom[x] == Some(b) {
                r.push(x);
                assert(r@[r@.len() - 1] == x);
                assert forall|y: int| 0 <= y < x && #[trigger] r0.contains(y as usize) implies r@.contains(
                    y as usize,
                ) by {
                    let j = choose|j: int| 0 <= j < r0.len() && r0[j] == y as usize;
                    assert(r@[j] == y as usize);
                }
            }
            x += 1;
        }
        r
    }
}

} // verus!
