use vstd::prelude::*;
use crate::cfg::{Body, Statement, Rvalue, Operand, Terminator, BasicBlock, PhiArg, pred_list};
use crate::dominance::{DominatorTree, dominates, square, lemma_bounded_set};

verus! {

/// Statement `i` of block `b` assigns `v`, or (at `i == len`) the call ending
/// block `b` writes its result to `v`.
pub open spec fn defines_at(body: Body, b: int, i: int, v: int) -> bool {
    let blk = body.blocks@[b];
    0 <= b < body.n() && ((0 <= i < blk.statements@.len() && blk.statements@[i].dest == v) || (
    i == blk.statements@.len() && call_dest(blk.terminator) == Some(v as usize)))
}

/// The variable that a call terminator writes, if any.
pub open spec fn call_dest(t: Terminator) -> Option<usize> {
    match t {
        Terminator::Call { destination, .. } => destination,
        _ => None,
    }
}

/// `v` is assigned somewhere in block `b`.
pub open spec fn assigned_in(body: Body, v: int, b: int) -> bool {
    exists|i: int| #[trigger] defines_at(body, b, i, v)
}

/// `v` placed exactly one static definition site.
pub open spec fn single_def(body: Body, v: int) -> bool {
    exists|b: int, i: int|
        #![trigger defines_at(body, b, i, v)]
        defines_at(body, b, i, v) && forall|b2: int, i2: int|
            #[trigger] defines_at(body, b2, i2, v) ==> b2 == b && i2 == i
}

/// `s` is closed for the iterated dominance frontier of the blocks in `seeds`.
pub open spec fn idf_closed(dt: DominatorTree, seeds: Seq<bool>, s: Set<int>) -> bool {
    forall|x: int, y: int|
        #![trigger dt.frontier@[x]@[y]]
        0 <= x < dt.n() && 0 <= y < dt.n() && (seeds[x] || s.contains(x))
            && dt.frontier@[x]@[y] ==> s.contains(y)
}

/// `y` is in the iterated dominance frontier of `seeds`: in every closed set.
pub open spec fn in_idf(dt: DominatorTree, seeds: Seq<bool>, y: int) -> bool {
    forall|s: Set<int>| #[trigger] idf_closed(dt, seeds, s) ==> s.contains(y)
}

/// The blocks where `v` is assigned.
pub fn assigned_blocks(body: &Body, v: usize) -> (r: Vec<bool>)
    ensures
        r@.len() == body.n(),
        forall|b: int| 0 <= b < body.n() ==> (r@[b] <==> assigned_in(*body, v as int, b)),
{
    let mut r: Vec<bool> = Vec::new();
    let mut b: usize = 0;
    while b < body.blocks.len()
        invariant
            b <= body.n(),
            r@.len() == b,
            forall|c: int| 0 <= c < b ==> (r@[c] <==> assigned_in(*body, v as int, c)),
        decreases body.n() - b,
    {
        let stmts = &body.blocks[b].statements;
        let mut hit = false;
        let mut i: usize = 0;
        while i < stmts.len()
            invariant
                b < body.n(),
                stmts@ == body.blocks@[b as int].statements@,
                i <= stmts@.len(),
                hit ==> assigned_in(*body, v as int, b as int),
                !hit ==> forall|j: int| 0 <= j < i ==> !defines_at(*body, b as int, j, v as int),
            decreases stmts@.len() - i,
        {
            if stmts[i].dest == v {
                assert(defines_at(*body, b as int, i as int, v as int));
                hit = true;
            }
            i += 1;
        }
        if let Terminator::Call { destination: Some(d), .. } = &body.blocks[b].terminator {
            if *d == v {
                assert(defines_at(*body, b as int, stmts@.len() as int, v as int));
                hit = true;
            }
        }
        proof {
            if !hit {
                assert forall|j: int| !defines_at(*body, b as int, j, v as int) by {}
            }
        }
        r.push(hit);
        b += 1;
    }
    r
}

/// The blocks in the iterated dominance frontier of `seeds`, by the
/// worklist of minimal SSA construction.
pub fn iterated_frontier(dt: &DominatorTree, seeds: &Vec<bool>) -> (r: Vec<bool>)
    requires
        square(dt.frontier@, dt.n()),
        seeds@.len() == dt.n(),
    ensures
        r@.len() == dt.n(),
        forall|y: int| 0 <= y < dt.n() ==> (r@[y] <==> in_idf(*dt, seeds@, y)),
{
    let n = dt.dom.len();
    let mut placed: Vec<bool> = Vec::new();
    let mut stack: Vec<usize> = Vec::new();
    let mut i: usize = 0;
    while i < n
        invariant
            n == dt.n(),
            seeds@.len() == n,
            i <= n,
            placed@.len() == i,
            forall|j: int| 0 <= j < i ==> !placed@[j],
            stack@.no_duplicates(),
            stack@.len() <= i,
            forall|j: int| 0 <= j < stack@.len() ==> #[trigger] stack@[j] < i && seeds@[stack@[j] as int],
            forall|x: int| 0 <= x < i && seeds@[x] ==> stack@.contains(x as usize),
        decreases n - i,
    {
        placed.push(false);
        if seeds[i] {
            let ghost st0 = stack@;
            stack.push(i);
            proof {
                assert forall|x: int| 0 <= x <= i && seeds@[x] implies stack@.contains(x as usize) by {
                    if x < i {
                        let j = choose|j: int| 0 <= j < st0.len() && st0[j] == x as usize;
                        assert(stack@[j] == x as usize);
                    } else {
                        assert(stack@[stack@.len() - 1] == x as usize);
                    }
                }
            }
        }
        i += 1;
    }
    let ghost mut seen: Set<int> = Set::empty();
    proof {
        lemma_bounded_set(seen, n as int);
    }
    while stack.len() > 0
        invariant
            n == dt.n(),
            square(dt.frontier@, dt.n()),
            seeds@.len() == n,
            placed@.len() == n,
            forall|x: int| 0 <= x < n ==> (placed@[x] <==> seen.contains(x)),
            forall|x: int| seen.contains(x) ==> 0 <= x < n,
            seen.finite(),
            seen.len() <= n,
            stack@.no_duplicates(),
            forall|j: int| 0 <= j < stack@.len() ==> #[trigger] stack@[j] < n,
            forall|j: int|
                0 <= j < stack@.len() && !seeds@[stack@[j] as int] ==> seen.contains(
                    #[trigger] stack@[j] as int,
                ),
            forall|x: int| seen.contains(x) ==> in_idf(*dt, seeds@, x),
            forall|x: int, y: int|
                #![trigger dt.frontier@[x]@[y]]
                0 <= x < n && 0 <= y < n && (seeds@[x] || seen.contains(x)) && !stack@.contains(
                    x as usize,
                ) && dt.frontier@[x]@[y] ==> seen.contains(y),
        decreases 2 * (n - seen.len()) + stack@.len(),
    {
        let ghost st0 = stack@;
        let x = stack.pop().unwrap();
        proof {
            assert(st0[st0.len() - 1] == x);
            assert(!stack@.contains(x)) by {
                if stack@.contains(x) {
                    let j = choose|j: int| 0 <= j < stack@.len() && stack@[j] == x;
                    assert(st0[j] == st0[st0.len() - 1]);
                }
            }
            assert forall|a: int, y: int|
                #![trigger dt.frontier@[a]@[y]]
                0 <= a < n && 0 <= y < n && (seeds@[a] || seen.contains(a)) && a != x
                    && !stack@.contains(a as usize) && dt.frontier@[a]@[y] implies seen.contains(y) by {
                if st0.contains(a as usize) {
                    let j = choose|j: int| 0 <= j < st0.len() && st0[j] == a as usize;
                    assert(j != st0.len() - 1);
                    assert(stack@[j] == a as usize);
                }
            }
        }
        let row = &dt.frontier[x];
        let ghost seen0 = seen;
        let ghost len0 = stack@.len();
        let mut y: usize = 0;
        while y < n
            invariant
                n == dt.n(),
                square(dt.frontier@, dt.n()),
                row@ == dt.frontier@[x as int]@,
                x < n,
                seeds@[x as int] || seen0.contains(x as int),
                seeds@.len() == n,
                y <= n,
                placed@.len() == n,
                forall|z: int| 0 <= z < n ==> (placed@[z] <==> seen.contains(z)),
                forall|z: int| seen.contains(z) ==> 0 <= z < n,
                seen.finite(),
                seen.len() <= n,
                seen0.subset_of(seen),
                stack@.len() - len0 <= seen.len() - seen0.len(),
                stack@.len() >= len0,
                stack@.no_duplicates(),
                !stack@.contains(x),
                forall|j: int| 0 <= j < stack@.len() ==> #[trigger] stack@[j] < n,
                forall|j: int|
                    0 <= j < stack@.len() && !seeds@[stack@[j] as int] ==> seen.contains(
                        #[trigger] stack@[j] as int,
                    ),
                forall|z: int| seen.contains(z) ==> in_idf(*dt, seeds@, z),
                forall|z: int| 0 <= z < y && row@[z] ==> seen.contains(z),
                forall|a: int, z: int|
                    #![trigger dt.frontier@[a]@[z]]
                    0 <= a < n && 0 <= z < n && (seeds@[a] || seen.contains(a)) && a != x
                        && !stack@.contains(a as usize) && dt.frontier@[a]@[z] ==> seen.contains(z),
            decreases n - y,
        {
            if row[y] && !placed[y] {
                let ghost seen1 = seen;
                proof {
                    assert forall|t: Set<int>| #[trigger] idf_closed(*dt, seeds@, t) implies t.contains(
                        y as int,
                    ) by {
                        if !seeds@[x as int] {
                            assert(in_idf(*dt, seeds@, x as int));
                            assert(t.contains(x as int));
                        }
                        assert(dt.frontier@[x as int]@[y as int]);
                    }
                    lemma_bounded_set(seen.insert(y as int), n as int);
                    seen = seen.insert(y as int);
                }
                placed.set(y, true);
                if !seeds[y] {
                    proof {
                        assert(!stack@.contains(y)) by {
                            if stack@.contains(y) {
                                let j = choose|j: int| 0 <= j < stack@.len() && stack@[j] == y;
                                assert(seen0.contains(stack@[j] as int));
                            }
                        }
                    }
                    let ghost st1 = stack@;
                    stack.push(y);
                    proof {
                        assert forall|j: int|
                            0 <= j < stack@.len() && !seeds@[stack@[j] as int] implies seen.contains(
                            #[trigger] stack@[j] as int,
                        ) by {
                            if j < stack@.len() - 1 {
                                assert(stack@[j] == st1[j]);
                            }
                        }
                        assert forall|a: int, z: int|
                            #![trigger dt.frontier@[a]@[z]]
                            0 <= a < n && 0 <= z < n && (seeds@[a] || seen.contains(a)) && a != x
                                && !stack@.contains(a as usize)
                                && dt.frontier@[a]@[z] implies seen.contains(z) by {
                            if a == y as int {
                                assert(stack@[stack@.len() - 1] == y);
                            } else if st1.contains(a as usize) {
                                let j = choose|j: int| 0 <= j < st1.len() && st1[j] == a as usize;
                                assert(stack@[j] == a as usize);
                            } else {
                                assert(seeds@[a] || seen1.contains(a));
                            }
                        }
                    }
                }
            }
            y += 1;
        }
    }
    proof {
        assert(idf_closed(*dt, seeds@, seen)) by {
            assert forall|a: int, z: int|
                #![trigger dt.frontier@[a]@[z]]
                0 <= a < n && 0 <= z < n && (seeds@[a] || seen.contains(a))
                    && dt.frontier@[a]@[z] implies seen.contains(z) by {
                assert(!stack@.contains(a as usize));
            }
        }
        assert forall|y: int| 0 <= y < n implies (placed@[y] <==> in_idf(*dt, seeds@, y)) by {
            if !placed@[y] {
                assert(!seen.contains(y));
                if in_idf(*dt, seeds@, y) {
                    assert(seen.contains(y));
                }
            } else {
                assert(seen.contains(y));
            }
        }
    }
    placed
}


/// `v` is assigned in two different blocks.
pub open spec fn multi_block(body: Body, v: int) -> bool {
    exists|b1: int, b2: int|
        #![trigger assigned_in(body, v, b1), assigned_in(body, v, b2)]
        0 <= b1 < body.n() && 0 <= b2 < body.n() && b1 != b2 && assigned_in(body, v, b1)
            && assigned_in(body, v, b2)
}

pub open spec fn assigned_seq(body: Body, v: int) -> Seq<bool> {
    Seq::new(body.n() as nat, |b: int| assigned_in(body, v, b))
}

/// Minimal SSA places a phi for `v` at the head of `b`: `v` is assigned in
/// two or more blocks and `b` is in the iterated dominance frontier of them.
pub open spec fn needs_phi(body: Body, dt: DominatorTree, v: int, b: int) -> bool {
    multi_block(body, v) && in_idf(dt, assigned_seq(body, v), b)
}

/// Some definition site of `v`, if there is one.
fn some_def_site(body: &Body, v: usize) -> (r: Option<(usize, usize)>)
    ensures
        match r {
            Some((b, i)) => defines_at(*body, b as int, i as int, v as int),
            None => forall|b: int, i: int| !defines_at(*body, b, i, v as int),
        },
{
    let a = assigned_blocks(body, v);
    let mut b: usize = 0;
    while b < body.blocks.len()
        invariant
            a@.len() == body.n(),
            forall|c: int| 0 <= c < body.n() ==> (a@[c] <==> assigned_in(*body, v as int, c)),
            b <= body.n(),
            forall|c: int, i: int| 0 <= c < b ==> !defines_at(*body, c, i, v as int),
        decreases body.n() - b,
    {
        if a[b] {
            let stmts = &body.blocks[b].statements;
            let mut i: usize = 0;
            while i < stmts.len()
                invariant
                    b < body.n(),
                    stmts@ == body.blocks@[b as int].statements@,
                    i <= stmts@.len(),
                    forall|j: int| 0 <= j < i ==> !defines_at(*body, b as int, j, v as int),
                decreases stmts@.len() - i,
            {
                if stmts[i].dest == v {
                    return Some((b, i));
                }
                i += 1;
            }
            proof {
                let w = choose|w: int| #[trigger] defines_at(*body, b as int, w, v as int);
                assert(w == stmts@.len());
            }
            return Some((b, stmts.len()));
        }
        proof {
            assert forall|i: int| !defines_at(*body, b as int, i, v as int) by {
                if defines_at(*body, b as int, i, v as int) {
                    assert(assigned_in(*body, v as int, b as int));
                }
            }
        }
        b += 1;
    }
    None
}

/// Whether `v` has one definition site only.
pub fn is_single_def(body: &Body, v: usize) -> (r: bool)
    ensures
        r == single_def(*body, v as int),
{
    match some_def_site(body, v) {
        None => false,
        Some((b0, i0)) => {
            let mut b: usize = 0;
            while b < body.blocks.len()
                invariant
                    defines_at(*body, b0 as int, i0 as int, v as int),
                    b <= body.n(),
                    forall|c: int, i: int|
                        0 <= c < b && #[trigger] defines_at(*body, c, i, v as int) ==> c == b0
                            && i == i0,
                decreases body.n() - b,
            {
                let stmts = &body.blocks[b].statements;
                let mut i: usize = 0;
                while i < stmts.len()
                    invariant
                        defines_at(*body, b0 as int, i0 as int, v as int),
                        b < body.n(),
                        stmts@ == body.blocks@[b as int].statements@,
                        i <= stmts@.len(),
                        forall|j: int|
                            0 <= j < i && #[trigger] defines_at(*body, b as int, j, v as int) ==> b
                                == b0 && j == i0,
                    decreases stmts@.len() - i,
                {
                    if stmts[i].dest == v && !(b == b0 && i == i0) {
                        assert(defines_at(*body, b as int, i as int, v as int));
                        return false;
                    }
                    i += 1;
                }
                if let Terminator::Call { destination: Some(d), .. } = &body.blocks[b].terminator {
                    if *d == v && !(b == b0 && stmts.len() == i0) {
                        assert(defines_at(*body, b as int, stmts@.len() as int, v as int));
                        return false;
                    }
                }
                b += 1;
            }
            true
        },
    }
}

/// Whether `v` is assigned in two different blocks.
fn is_multi_block(body: &Body, v: usize, a: &Vec<bool>) -> (r: bool)
    requires
        a@.len() == body.n(),
        forall|c: int| 0 <= c < body.n() ==> (a@[c] <==> assigned_in(*body, v as int, c)),
    ensures
        r == multi_block(*body, v as int),
{
    let mut first: Option<usize> = None;
    let mut b: usize = 0;
    while b < a.len()
        invariant
            a@.len() == body.n(),
            forall|c: int| 0 <= c < body.n() ==> (a@[c] <==> assigned_in(*body, v as int, c)),
            b <= a@.len(),
            match first {
                Some(f) => f < b && a@[f as int] && forall|c: int| 0 <= c < b && a@[c] ==> c == f,
                None => forall|c: int| 0 <= c < b ==> !a@[c],
            },
        decreases a@.len() - b,
    {
        if a[b] {
            match first {
                Some(f) => {
                    assert(assigned_in(*body, v as int, f as int));
                    assert(assigned_in(*body, v as int, b as int));
                    return true;
                },
                None => {
                    first = Some(b);
                },
            }
        }
        b += 1;
    }
    false
}

/// For each variable, the blocks that get a phi for it.
pub fn place_phis(body: &Body, dt: &DominatorTree) -> (r: Vec<Vec<bool>>)
    requires
        dt.describes(*body),
    ensures
        r@.len() == body.num_vars,
        forall|v: int| 0 <= v < body.num_vars ==> (#[trigger] r@[v])@.len() == body.n(),
        forall|v: int, b: int|
            0 <= v < body.num_vars && 0 <= b < body.n() ==> (#[trigger] r@[v]@[b] <==> needs_phi(
                *body,
                *dt,
                v,
                b,
            )),
{
    let mut r: Vec<Vec<bool>> = Vec::new();
    let mut v: usize = 0;
    while v < body.num_vars
        invariant
            dt.describes(*body),
            v <= body.num_vars,
            r@.len() == v,
            forall|w: int| 0 <= w < v ==> (#[trigger] r@[w])@.len() == body.n(),
            forall|w: int, b: int|
                0 <= w < v && 0 <= b < body.n() ==> (#[trigger] r@[w]@[b] <==> needs_phi(
                    *body,
                    *dt,
                    w,
                    b,
                )),
        decreases body.num_vars - v,
    {
        let a = assigned_blocks(body, v);
        let row = if is_multi_block(body, v, &a) {
            proof {
                assert(a@ =~= assigned_seq(*body, v as int));
            }
            iterated_frontier(dt, &a)
        } else {
            let mut z: Vec<bool> = Vec::new();
            let mut b: usize = 0;
            while b < body.blocks.len()
                invariant
                    b <= body.n(),
                    z@.len() == b,
                    forall|c: int| 0 <= c < b ==> !z@[c],
                decreases body.n() - b,
            {
                z.push(false);
                b += 1;
            }
            z
        };
        r.push(row);
        v += 1;
    }
    r
}

/// For each block, the variables that get a phi there, in increasing order.
pub fn phi_vars_per_block(body: &Body, dt: &DominatorTree, phis: &Vec<Vec<bool>>) -> (r: Vec<
    Vec<usize>,
>)
    requires
        phis@.len() == body.num_vars,
        forall|v: int| 0 <= v < body.num_vars ==> (#[trigger] phis@[v])@.len() == body.n(),
        forall|v: int, b: int|
            0 <= v < body.num_vars && 0 <= b < body.n() ==> (#[trigger] phis@[v]@[b]
                <==> needs_phi(*body, *dt, v, b)),
    ensures
        phi_lists(*body, *dt, r@),
{
    let mut r: Vec<Vec<usize>> = Vec::new();
    let mut b: usize = 0;
    while b < body.blocks.len()
        invariant
            phis@.len() == body.num_vars,
            forall|v: int| 0 <= v < body.num_vars ==> (#[trigger] phis@[v])@.len() == body.n(),
            forall|v: int, c: int|
                0 <= v < body.num_vars && 0 <= c < body.n() ==> (#[trigger] phis@[v]@[c]
                    <==> needs_phi(*body, *dt, v, c)),
            b <= body.n(),
            r@.len() == b,
            forall|c: int| 0 <= c < b ==> phi_list(*body, *dt, c, #[trigger] r@[c]@),
        decreases body.n() - b,
    {
        let mut l: Vec<usize> = Vec::new();
        let mut v: usize = 0;
        while v < body.num_vars
            invariant
                phis@.len() == body.num_vars,
                forall|w: int| 0 <= w < body.num_vars ==> (#[trigger] phis@[w])@.len() == body.n(),
                forall|w: int, c: int|
                    0 <= w < body.num_vars && 0 <= c < body.n() ==> (#[trigger] phis@[w]@[c]
                        <==> needs_phi(*body, *dt, w, c)),
                b < body.n(),
                v <= body.num_vars,
                forall|j: int| 0 <= j < l@.len() ==> l@[j] < v && needs_phi(*body, *dt, #[trigger] l@[j] as int, b as int),
                forall|w: int| 0 <= w < v && needs_phi(*body, *dt, w, b as int) ==> l@.contains(w as usize),
                forall|i: int, j: int| 0 <= i < j < l@.len() ==> l@[i] < l@[j],
            decreases body.num_vars - v,
        {
            let ghost l0 = l@;
            if phis[v][b] {
                l.push(v);
                proof {
                    assert(l@[l@.len() - 1] == v);
                    assert forall|w: int| 0 <= w < v && #[trigger] l0.contains(w as usize) implies l@.contains(w as usize) by {
                        let j = choose|j: int| 0 <= j < l0.len() && l0[j] == w as usize;
                        assert(l@[j] == w as usize);
                    }
                }
            }
            v += 1;
        }
        r.push(l);
        b += 1;
    }
    r
}

/// `l` lists, in increasing order, the variables that get a phi in block `b`.
pub open spec fn phi_list(body: Body, dt: DominatorTree, b: int, l: Seq<usize>) -> bool {
    &&& forall|j: int| 0 <= j < l.len() ==> #[trigger] l[j] < body.num_vars && needs_phi(body, dt, l[j] as int, b)
    &&& forall|w: int| 0 <= w < body.num_vars && needs_phi(body, dt, w, b) ==> l.contains(w as usize)
    &&& forall|i: int, j: int| 0 <= i < j < l.len() ==> l[i] < l[j]
}

pub open spec fn phi_lists(body: Body, dt: DominatorTree, ls: Seq<Vec<usize>>) -> bool {
    &&& ls.len() == body.n()
    &&& forall|b: int| 0 <= b < body.n() ==> phi_list(body, dt, b, #[trigger] ls[b]@)
}


/// One definition of the SSA form: the name it defines, the pre-SSA variable,
/// and its place (block, statement index in the SSA block, the call's result
/// standing one past the last statement).
#[derive(Clone, Copy, Debug, PartialEq, Eq, Structural)]
pub struct DefSite {
    pub block: usize,
    pub index: usize,
    pub var: usize,
    pub name: usize,
}

/// The pre-SSA variable defined at `(b, idx)` of the SSA block: the phis
/// first, then the statements, then the call's result.
pub open spec fn def_var_at(body: Body, pv: Seq<Vec<usize>>, b: int, idx: int) -> Option<usize> {
    let k = pv[b]@.len() as int;
    let len = body.blocks@[b].statements@.len() as int;
    if idx < 0 {
        None
    } else if idx < k {
        Some(pv[b]@[idx])
    } else if idx < k + len {
        Some(body.blocks@[b].statements@[idx - k].dest)
    } else if idx == k + len {
        call_dest(body.blocks@[b].terminator)
    } else {
        None
    }
}

pub open spec fn pos_lt(d1: DefSite, d2: DefSite) -> bool {
    d1.block < d2.block || (d1.block == d2.block && d1.index < d2.index)
}

/// The definition table lists every definition of the SSA form once, in
/// block and statement order, each with a name of its own.
pub open spec fn table_ok(body: Body, pv: Seq<Vec<usize>>, defs: Seq<DefSite>, total: int) -> bool {
    &&& forall|j: int|
        0 <= j < defs.len() ==> (#[trigger] defs[j]).block < body.n() && def_var_at(
            body,
            pv,
            defs[j].block as int,
            defs[j].index as int,
        ) == Some(defs[j].var) && defs[j].name < total
    &&& forall|b: int, idx: int|
        0 <= b < body.n() && #[trigger] def_var_at(body, pv, b, idx) is Some ==> exists|j: int|
            0 <= j < defs.len() && (#[trigger] defs[j]).block == b && defs[j].index == idx
    &&& forall|i: int, j: int| 0 <= i < j < defs.len() ==> pos_lt(defs[i], defs[j])
    &&& forall|i: int, j: int|
        0 <= i < defs.len() && 0 <= j < defs.len() && i != j ==> defs[i].name != defs[j].name
    &&& forall|j: int|
        0 <= j < defs.len() && (#[trigger] defs[j]).name < body.num_vars ==> defs[j].name
            == defs[j].var
}

/// An upper bound on the names that SSA construction uses, block by block.
pub open spec fn budget_upto(body: Body, b: int) -> int
    decreases b,
{
    if b <= 0 {
        0
    } else {
        budget_upto(body, b - 1) + body.num_vars + body.blocks@[b - 1].statements@.len() + 1
    }
}

/// The SSA names of `body` fit in `usize`.
pub open spec fn names_fit(body: Body) -> bool {
    body.num_vars + budget_upto(body, body.n()) <= usize::MAX
}

pub proof fn lemma_budget_mono(body: Body, a: int, b: int)
    requires
        0 <= a <= b,
    ensures
        budget_upto(body, a) <= budget_upto(body, b),
    decreases b - a,
{
    if a < b {
        lemma_budget_mono(body, a, b - 1);
    }
}

proof fn lemma_increasing_len(l: Seq<usize>, bound: int)
    requires
        0 <= bound,
        forall|i: int, j: int| 0 <= i < j < l.len() ==> l[i] < l[j],
        forall|j: int| 0 <= j < l.len() ==> l[j] < bound,
    ensures
        l.len() <= bound,
    decreases l.len(),
{
    if l.len() > 0 {
        let p = l.drop_last();
        lemma_increasing_len(p, l[l.len() - 1] as int);
    }
}

/// Gives every definition its SSA name: a fresh one, except where the
/// variable has a single definition site, which keeps the variable's own index.
pub fn name_definitions(body: &Body, dt: &DominatorTree, pv: &Vec<Vec<usize>>) -> (r: (
    Vec<DefSite>,
    usize,
))
    requires
        body.wf(),
        names_fit(*body),
        phi_lists(*body, *dt, pv@),
    ensures
        table_ok(*body, pv@, r.0@, r.1 as int),
        r.1 >= body.num_vars,
        r.1 <= body.num_vars + budget_upto(*body, body.n()),
        forall|j: int|
            0 <= j < r.0@.len() && (#[trigger] r.0@[j]).name < body.num_vars ==> single_def(
                *body,
                r.0@[j].var as int,
            ),
{
    let nv = body.num_vars;
    let n = body.blocks.len();
    let mut defs: Vec<DefSite> = Vec::new();
    let mut fresh: usize = nv;
    let mut b: usize = 0;
    while b < n
        invariant
            body.wf(),
            names_fit(*body),
            phi_lists(*body, *dt, pv@),
            n == body.n(),
            nv == body.num_vars,
            b <= n,
            nv <= fresh <= nv + budget_upto(*body, b as int),
            forall|j: int| 0 <= j < defs@.len() ==> (#[trigger] defs@[j]).block < b,
            forall|j: int|
                0 <= j < defs@.len() ==> def_var_at(
                    *body,
                    pv@,
                    (#[trigger] defs@[j]).block as int,
                    defs@[j].index as int,
                ) == Some(defs@[j].var) && defs@[j].name < fresh,
            forall|c: int, idx: int|
                0 <= c < b && #[trigger] def_var_at(*body, pv@, c, idx) is Some ==> exists|j: int|
                    0 <= j < defs@.len() && (#[trigger] defs@[j]).block == c && defs@[j].index
                        == idx,
            forall|i: int, j: int| 0 <= i < j < defs@.len() ==> pos_lt(defs@[i], defs@[j]),
            forall|i: int, j: int|
                0 <= i < defs@.len() && 0 <= j < defs@.len() && i != j ==> defs@[i].name
                    != defs@[j].name,
            forall|j: int|
                0 <= j < defs@.len() && (#[trigger] defs@[j]).name < nv ==> defs@[j].name
                    == defs@[j].var && single_def(*body, defs@[j].var as int) && defs@[j].index
                    >= pv@[defs@[j].block as int]@.len(),
        decreases n - b,
    {
        proof {
            lemma_budget_mono(*body, b as int + 1, n as int);
            lemma_increasing_len(pv@[b as int]@, nv as int);
        }
        let phis = &pv[b];
        let k = phis.len();
        let stmts = &body.blocks[b].statements;
        let len = stmts.len();
        let ghost base = defs@.len();
        let ghost fresh0 = fresh;
        // One pass over the places of block b: phis, statements, the call's result.
        let mut idx: usize = 0;
        while idx <= k + len
            invariant
                body.wf(),
                phi_lists(*body, *dt, pv@),
                n == body.n(),
                nv == body.num_vars,
                b < n,
                phis@ == pv@[b as int]@,
                k == phis@.len(),
                k <= nv,
                stmts@ == body.blocks@[b as int].statements@,
                len == stmts@.len(),
                idx <= k + len + 1,
                fresh0 <= nv + budget_upto(*body, b as int),
                nv + budget_upto(*body, b as int + 1) <= usize::MAX,
                nv <= fresh <= fresh0 + idx,
                base <= defs@.len(),
                forall|j: int| 0 <= j < base ==> (#[trigger] defs@[j]).block < b,
                forall|j: int|
                    base <= j < defs@.len() ==> (#[trigger] defs@[j]).block == b && defs@[j].index
                        < idx,
                forall|j: int|
                    0 <= j < defs@.len() ==> def_var_at(
                        *body,
                        pv@,
                        (#[trigger] defs@[j]).block as int,
                        defs@[j].index as int,
                    ) == Some(defs@[j].var) && defs@[j].name < fresh,
                forall|c: int, i: int|
                    0 <= c < b && #[trigger] def_var_at(*body, pv@, c, i) is Some ==> exists|j: int|
                        0 <= j < defs@.len() && (#[trigger] defs@[j]).block == c && defs@[j].index
                            == i,
                forall|i: int|
                    0 <= i < idx && #[trigger] def_var_at(*body, pv@, b as int, i) is Some
                        ==> exists|j: int|
                        0 <= j < defs@.len() && (#[trigger] defs@[j]).block == b && defs@[j].index
                            == i,
                forall|i: int, j: int| 0 <= i < j < defs@.len() ==> pos_lt(defs@[i], defs@[j]),
                forall|i: int, j: int|
                    0 <= i < defs@.len() && 0 <= j < defs@.len() && i != j ==> defs@[i].name
                        != defs@[j].name,
                forall|j: int|
                    0 <= j < defs@.len() && (#[trigger] defs@[j]).name < nv ==> defs@[j].name
                        == defs@[j].var && single_def(*body, defs@[j].var as int)
                        && defs@[j].index >= pv@[defs@[j].block as int]@.len(),
            decreases k + len + 1 - idx,
        {
            let var: Option<usize> = if idx < k {
                Some(phis[idx])
            } else if idx < k + len {
                Some(stmts[idx - k].dest)
            } else {
                match &body.blocks[b].terminator {
                    Terminator::Call { destination, .. } => *destination,
                    _ => None,
                }
            };
            assert(var == def_var_at(*body, pv@, b as int, idx as int));
            if let Some(v) = var {
                let keep = idx >= k && is_single_def(body, v);
                let name = if keep {
                    v
                } else {
                    fresh
                };
                proof {
                    if keep {
                        assert(v < nv) by {
                            assert(body.block_vars_ok(b as int));
                            if idx < k + len {
                                assert(stmts@[idx - k].dest < nv);
                            }
                        }
                        let here = if idx < k + len {
                            (idx - k) as int
                        } else {
                            len as int
                        };
                        assert(defines_at(*body, b as int, here, v as int));
                        assert forall|j: int| 0 <= j < defs@.len() implies defs@[j].name != v by {
                            if defs@[j].name == v {
                                let bj = defs@[j].block as int;
                                let ij = defs@[j].index as int;
                                let kj = pv@[bj]@.len() as int;
                                let lj = body.blocks@[bj].statements@.len() as int;
                                let there = if ij < kj + lj {
                                    ij - kj
                                } else {
                                    lj
                                };
                                assert(defines_at(*body, bj, there, v as int));
                            }
                        }
                    }
                }
                let ghost d0 = defs@;
                defs.push(DefSite { block: b, index: idx, var: v, name });
                if !keep {
                    fresh = fresh + 1;
                }
                proof {
                    assert(defs@[defs@.len() - 1].block == b && defs@[defs@.len() - 1].index == idx);
                    assert forall|c: int, i: int|
                        0 <= c < b && #[trigger] def_var_at(*body, pv@, c, i) is Some implies exists|j: int|
                            0 <= j < defs@.len() && (#[trigger] defs@[j]).block == c
                                && defs@[j].index == i by {
                        let j = choose|j: int|
                            0 <= j < d0.len() && (#[trigger] d0[j]).block == c && d0[j].index == i;
                        assert(defs@[j] == d0[j]);
                    }
                    assert forall|i: int|
                        0 <= i < idx + 1 && #[trigger] def_var_at(*body, pv@, b as int, i) is Some implies exists|j: int|
                            0 <= j < defs@.len() && (#[trigger] defs@[j]).block == b
                                && defs@[j].index == i by {
                        if i < idx {
                            let j = choose|j: int|
                                0 <= j < d0.len() && (#[trigger] d0[j]).block == b && d0[j].index == i;
                            assert(defs@[j] == d0[j]);
                        } else {
                            assert(defs@[defs@.len() - 1].index == i);
                        }
                    }
                }
            } else {
                proof {
                    assert forall|i: int|
                        0 <= i < idx + 1 && #[trigger] def_var_at(*body, pv@, b as int, i) is Some implies exists|j: int|
                            0 <= j < defs@.len() && (#[trigger] defs@[j]).block == b
                                && defs@[j].index == i by {
                        assert(i < idx);
                    }
                }
            }
            idx += 1;
        }
        proof {
            assert forall|i: int|
                #[trigger] def_var_at(*body, pv@, b as int, i) is Some implies i <= k + len by {}
        }
        b += 1;
    }
    (defs, fresh)
}


/// A definition at `(db, di)` reaches a use at `(ub, ui)` on every path:
/// earlier in the same block, or in a block that dominates the use's block.
pub open spec fn point_dominates(body: Body, db: int, di: int, ub: int, ui: int) -> bool {
    if db == ub {
        di < ui
    } else {
        dominates(body, db, ub)
    }
}

/// `d` defines `v` and dominates the use at `(ub, ui)`.
pub open spec fn candidate(body: Body, d: DefSite, v: int, ub: int, ui: int) -> bool {
    d.var == v && point_dominates(body, d.block as int, d.index as int, ub, ui)
}

/// `defs[j]` is the nearest definition of `v` that dominates the use: every
/// other such definition dominates it.
pub open spec fn nearest(body: Body, defs: Seq<DefSite>, j: int, v: int, ub: int, ui: int) -> bool {
    &&& 0 <= j < defs.len()
    &&& candidate(body, defs[j], v, ub, ui)
    &&& forall|k: int|
        0 <= k < defs.len() && k != j && #[trigger] candidate(body, defs[k], v, ub, ui)
            ==> point_dominates(
            body,
            defs[k].block as int,
            defs[k].index as int,
            defs[j].block as int,
            defs[j].index as int,
        )
}

/// The use of `v` at `(ub, ui)` is renamed to `r`: the nearest dominating
/// definition where there is one, else some dominating definition, else `v`
/// itself (a value from outside the body).
pub open spec fn resolves(body: Body, defs: Seq<DefSite>, v: int, ub: int, ui: int, r: usize) -> bool {
    &&& (exists|j: int| nearest(body, defs, j, v, ub, ui)) ==> exists|j: int|
        nearest(body, defs, j, v, ub, ui) && defs[j].name == r
    &&& (exists|j: int| 0 <= j < defs.len() && candidate(body, #[trigger] defs[j], v, ub, ui))
        ==> exists|j: int|
        0 <= j < defs.len() && candidate(body, #[trigger] defs[j], v, ub, ui) && defs[j].name == r
    &&& !(exists|j: int| 0 <= j < defs.len() && candidate(body, #[trigger] defs[j], v, ub, ui))
        ==> r == v
}

pub open spec fn dt_ok(body: Body, dt: DominatorTree, defs: Seq<DefSite>) -> bool {
    &&& dt.describes(body)
    &&& forall|j: int| 0 <= j < defs.len() ==> (#[trigger] defs[j]).block < body.n()
}

fn point_dominates_exec(body: &Body, dt: &DominatorTree, db: usize, di: usize, ub: usize, ui: usize) -> (r: bool)
    requires
        dt.describes(*body),
        db < body.n(),
        ub < body.n(),
    ensures
        r == point_dominates(*body, db as int, di as int, ub as int, ui as int),
{
    if db == ub {
        di < ui
    } else {
        dt.dom[db][ub]
    }
}

fn is_candidate(body: &Body, dt: &DominatorTree, d: &DefSite, v: usize, ub: usize, ui: usize) -> (r: bool)
    requires
        dt.describes(*body),
        d.block < body.n(),
        ub < body.n(),
    ensures
        r == candidate(*body, *d, v as int, ub as int, ui as int),
{
    d.var == v && point_dominates_exec(body, dt, d.block, d.index, ub, ui)
}

/// The SSA name that a use of `v` at `(ub, ui)` refers to.
pub fn resolve(body: &Body, dt: &DominatorTree, defs: &Vec<DefSite>, v: usize, ub: usize, ui: usize) -> (r: usize)
    requires
        dt_ok(*body, *dt, defs@),
        ub < body.n(),
    ensures
        resolves(*body, defs@, v as int, ub as int, ui as int, r),
        r == v || exists|j: int| 0 <= j < defs@.len() && defs@[j].name == r,
{
    let m = defs.len();
    let mut j: usize = 0;
    while j < m
        invariant
            dt_ok(*body, *dt, defs@),
            ub < body.n(),
            m == defs@.len(),
            j <= m,
            forall|i: int| 0 <= i < j ==> !nearest(*body, defs@, i, v as int, ub as int, ui as int),
        decreases m - j,
    {
        if is_candidate(body, dt, &defs[j], v, ub, ui) {
            let mut ok = true;
            let mut k: usize = 0;
            while k < m && ok
                invariant
                    dt_ok(*body, *dt, defs@),
                    ub < body.n(),
                    m == defs@.len(),
                    j < m,
                    k <= m,
                    ok ==> forall|i: int|
                        0 <= i < k && i != j && #[trigger] candidate(*body, defs@[i], v as int, ub as int, ui as int)
                            ==> point_dominates(*body, defs@[i].block as int, defs@[i].index as int, defs@[j as int].block as int, defs@[j as int].index as int),
                    !ok ==> !nearest(*body, defs@, j as int, v as int, ub as int, ui as int),
                decreases m - k,
            {
                if k != j && is_candidate(body, dt, &defs[k], v, ub, ui)
                    && !point_dominates_exec(body, dt, defs[k].block, defs[k].index, defs[j].block, defs[j].index) {
                    ok = false;
                }
                k += 1;
            }
            if ok {
                proof {
                    assert(nearest(*body, defs@, j as int, v as int, ub as int, ui as int));
                    assert(candidate(*body, defs@[j as int], v as int, ub as int, ui as int));
                }
                return defs[j].name;
            }
        }
        j += 1;
    }
    let mut j: usize = 0;
    while j < m
        invariant
            dt_ok(*body, *dt, defs@),
            ub < body.n(),
            m == defs@.len(),
            j <= m,
            forall|i: int| 0 <= i < m ==> !nearest(*body, defs@, i, v as int, ub as int, ui as int),
            forall|i: int| 0 <= i < j ==> !candidate(*body, #[trigger] defs@[i], v as int, ub as int, ui as int),
        decreases m - j,
    {
        if is_candidate(body, dt, &defs[j], v, ub, ui) {
            return defs[j].name;
        }
        j += 1;
    }
    v
}


pub open spec fn renamed_operand(body: Body, defs: Seq<DefSite>, a: Operand, o: Operand, ub: int, ui: int) -> bool {
    match a {
        Operand::Var(v) => o is Var && resolves(body, defs, v as int, ub, ui, o->Var_0),
        Operand::Const(c) => o == Operand::Const(c),
    }
}

pub open spec fn renamed_rvalue(body: Body, defs: Seq<DefSite>, a: Rvalue, o: Rvalue, ub: int, ui: int) -> bool {
    match a {
        Rvalue::Use(x) => o is Use && renamed_operand(body, defs, x, o->Use_0, ub, ui),
        Rvalue::UnaryOp(k, x) => o is UnaryOp && o->UnaryOp_0 == k && renamed_operand(
            body,
            defs,
            x,
            o->UnaryOp_1,
            ub,
            ui,
        ),
        Rvalue::BinaryOp(k, x, y) => o is BinaryOp && o->BinaryOp_0 == k && renamed_operand(
            body,
            defs,
            x,
            o->BinaryOp_1,
            ub,
            ui,
        ) && renamed_operand(body, defs, y, o->BinaryOp_2, ub, ui),
        _ => false,
    }
}

/// The definition at `(b, idx)` has SSA name `name`.
pub open spec fn named_at(defs: Seq<DefSite>, b: int, idx: int, name: usize) -> bool {
    exists|j: int|
        0 <= j < defs.len() && (#[trigger] defs[j]).block == b && defs[j].index == idx
            && defs[j].name == name
}

pub open spec fn renamed_term(body: Body, defs: Seq<DefSite>, a: Terminator, t: Terminator, ub: int, ui: int) -> bool {
    match a {
        Terminator::Goto { block } => t == Terminator::Goto { block },
        Terminator::SwitchInt { discr, targets, otherwise } => t is SwitchInt && renamed_operand(
            body,
            defs,
            discr,
            t->discr,
            ub,
            ui,
        ) && t->targets@ == targets@ && t->otherwise == otherwise,
        Terminator::Return => t is Return,
        Terminator::Unreachable => t is Unreachable,
        Terminator::Call { destination, target } => t is Call && t->target == target && match destination {
            None => t->destination is None,
            Some(_) => t->destination is Some && named_at(defs, ub, ui, t->destination->Some_0),
        },
    }
}

/// The phi for `v` takes, for each predecessor in increasing order, the
/// definition of `v` that reaches the end of that predecessor.
pub open spec fn phi_ok(body: Body, defs: Seq<DefSite>, preds: Seq<usize>, v: int, args: Seq<PhiArg>) -> bool {
    &&& args.len() == preds.len()
    &&& forall|a: int|
        0 <= a < args.len() ==> (#[trigger] args[a]).pred == preds[a] && args[a].value is Var
            && resolves(body, defs, v, preds[a] as int, usize::MAX as int, args[a].value->Var_0)
}

/// Block `b` of the SSA form: the phis of `b`, then the renamed statements, then
/// the renamed terminator.
pub open spec fn block_renamed(
    body: Body,
    pv: Seq<Vec<usize>>,
    preds: Seq<Vec<usize>>,
    defs: Seq<DefSite>,
    b: int,
    ob: BasicBlock,
) -> bool {
    let k = pv[b]@.len() as int;
    let ib = body.blocks@[b];
    let len = ib.statements@.len() as int;
    &&& ob.statements@.len() == k + len
    &&& forall|j: int|
        0 <= j < k ==> (#[trigger] ob.statements@[j]).rvalue is Phi && named_at(
            defs,
            b,
            j,
            ob.statements@[j].dest,
        ) && phi_ok(body, defs, preds[b]@, pv[b]@[j] as int, ob.statements@[j].rvalue->Phi_0@)
    &&& forall|i: int|
        k <= i < k + len ==> named_at(defs, b, i, (#[trigger] ob.statements@[i]).dest)
            && renamed_rvalue(body, defs, ib.statements@[i - k].rvalue, ob.statements@[i].rvalue, b, i)
    &&& renamed_term(body, defs, ib.terminator, ob.terminator, b, k + len)
}

fn name_of(defs: &Vec<DefSite>, b: usize, idx: usize) -> (r: usize)
    requires
        exists|j: int| 0 <= j < defs@.len() && (#[trigger] defs@[j]).block == b && defs@[j].index == idx,
    ensures
        named_at(defs@, b as int, idx as int, r),
{
    let mut j: usize = 0;
    while j < defs.len()
        invariant
            j <= defs@.len(),
            exists|i: int| j <= i < defs@.len() && (#[trigger] defs@[i]).block == b && defs@[i].index == idx,
        decreases defs@.len() - j,
    {
        if defs[j].block == b && defs[j].index == idx {
            return defs[j].name;
        }
        j += 1;
    }
    0
}

fn rename_operand(body: &Body, dt: &DominatorTree, defs: &Vec<DefSite>, a: &Operand, ub: usize, ui: usize) -> (r: Operand)
    requires
        dt_ok(*body, *dt, defs@),
        ub < body.n(),
    ensures
        renamed_operand(*body, defs@, *a, r, ub as int, ui as int),
{
    match a {
        Operand::Var(v) => Operand::Var(resolve(body, dt, defs, *v, ub, ui)),
        Operand::Const(c) => Operand::Const(*c),
    }
}

fn rename_rvalue(body: &Body, dt: &DominatorTree, defs: &Vec<DefSite>, a: &Rvalue, ub: usize, ui: usize) -> (r: Rvalue)
    requires
        dt_ok(*body, *dt, defs@),
        ub < body.n(),
        !(a is Phi || a is Essa),
    ensures
        renamed_rvalue(*body, defs@, *a, r, ub as int, ui as int),
{
    match a {
        Rvalue::Use(x) => Rvalue::Use(rename_operand(body, dt, defs, x, ub, ui)),
        Rvalue::UnaryOp(k, x) => Rvalue::UnaryOp(*k, rename_operand(body, dt, defs, x, ub, ui)),
        Rvalue::BinaryOp(k, x, y) => Rvalue::BinaryOp(
            *k,
            rename_operand(body, dt, defs, x, ub, ui),
            rename_operand(body, dt, defs, y, ub, ui),
        ),
        _ => Rvalue::Use(Operand::Const(0)),
    }
}

fn copy_targets(t: &Vec<(i64, usize)>) -> (r: Vec<(i64, usize)>)
    ensures
        r@ == t@,
{
    let mut r: Vec<(i64, usize)> = Vec::new();
    let mut k: usize = 0;
    while k < t.len()
        invariant
            k <= t@.len(),
            r@ == t@.subrange(0, k as int),
        decreases t@.len() - k,
    {
        r.push(t[k]);
        k += 1;
        assert(r@ =~= t@.subrange(0, k as int));
    }
    assert(t@.subrange(0, k as int) =~= t@);
    r
}

fn rename_terminator(body: &Body, dt: &DominatorTree, defs: &Vec<DefSite>, a: &Terminator, ub: usize, ui: usize) -> (r: Terminator)
    requires
        dt_ok(*body, *dt, defs@),
        ub < body.n(),
        call_dest(*a) is Some ==> exists|j: int|
            0 <= j < defs@.len() && (#[trigger] defs@[j]).block == ub && defs@[j].index == ui,
    ensures
        renamed_term(*body, defs@, *a, r, ub as int, ui as int),
{
    match a {
        Terminator::Goto { block } => Terminator::Goto { block: *block },
        Terminator::SwitchInt { discr, targets, otherwise } => Terminator::SwitchInt {
            discr: rename_operand(body, dt, defs, discr, ub, ui),
            targets: copy_targets(targets),
            otherwise: *otherwise,
        },
        Terminator::Return => Terminator::Return,
        Terminator::Unreachable => Terminator::Unreachable,
        Terminator::Call { destination, target } => {
            let d = match destination {
                None => None,
                Some(_) => Some(name_of(defs, ub, ui)),
            };
            Terminator::Call { destination: d, target: *target }
        },
    }
}

fn phi_args(body: &Body, dt: &DominatorTree, defs: &Vec<DefSite>, preds: &Vec<usize>, v: usize) -> (r: Vec<PhiArg>)
    requires
        dt_ok(*body, *dt, defs@),
        forall|j: int| 0 <= j < preds@.len() ==> #[trigger] preds@[j] < body.n(),
    ensures
        phi_ok(*body, defs@, preds@, v as int, r@),
{
    let mut r: Vec<PhiArg> = Vec::new();
    let mut a: usize = 0;
    while a < preds.len()
        invariant
            dt_ok(*body, *dt, defs@),
            forall|j: int| 0 <= j < preds@.len() ==> #[trigger] preds@[j] < body.n(),
            a <= preds@.len(),
            r@.len() == a,
            forall|i: int|
                0 <= i < a ==> (#[trigger] r@[i]).pred == preds@[i] && r@[i].value is Var
                    && resolves(*body, defs@, v as int, preds@[i] as int, usize::MAX as int, r@[i].value->Var_0),
        decreases preds@.len() - a,
    {
        let p = preds[a];
        let x = resolve(body, dt, defs, v, p, usize::MAX);
        r.push(PhiArg { pred: p, value: Operand::Var(x) });
        a += 1;
    }
    r
}


/// A body in SSA form together with how it was obtained: the phi variables
/// of each block, the predecessor lists that order phi operands, and the
/// table of all definitions.
pub struct SsaForm {
    pub body: Body,
    pub defs: Vec<DefSite>,
    pub phi_vars: Vec<Vec<usize>>,
    pub preds: Vec<Vec<usize>>,
}

impl SsaForm {
    /// `self` is the SSA construction of `input`.
    pub open spec fn built_from(self, input: Body, dt: DominatorTree) -> bool {
        &&& phi_lists(input, dt, self.phi_vars@)
        &&& self.preds@.len() == input.n()
        &&& forall|b: int| 0 <= b < input.n() ==> pred_list(input, b, #[trigger] self.preds@[b]@)
        &&& table_ok(input, self.phi_vars@, self.defs@, self.body.num_vars as int)
        &&& self.body.num_vars >= input.num_vars
        &&& self.body.num_vars <= input.num_vars + budget_upto(input, input.n())
        &&& forall|j: int|
            0 <= j < self.defs@.len() && (#[trigger] self.defs@[j]).name < input.num_vars
                ==> single_def(input, self.defs@[j].var as int)
        &&& self.body.n() == input.n()
        &&& forall|b: int|
            0 <= b < input.n() ==> block_renamed(
                input,
                self.phi_vars@,
                self.preds@,
                self.defs@,
                b,
                #[trigger] self.body.blocks@[b],
            )
    }

    /// Builds the minimal SSA form of `input`: phis at the iterated dominance
    /// frontiers of multiply-assigned variables, fresh names for definitions
    /// (a variable with one definition site keeps its index), and every use
    /// renamed to the definition that reaches it.
    pub fn build(input: &Body, dt: &DominatorTree) -> (r: SsaForm)
        requires
            input.wf(),
            names_fit(*input),
            dt.describes(*input),
        ensures
            r.built_from(*input, *dt),
    {
        let phis = place_phis(input, dt);
        let pv = phi_vars_per_block(input, dt, &phis);
        let preds = input.predecessors();
        let (defs, total) = name_definitions(input, dt, &pv);
        let n = input.blocks.len();
        let mut blocks: Vec<BasicBlock> = Vec::new();
        let mut b: usize = 0;
        while b < n
            invariant
                input.wf(),
                dt.describes(*input),
                n == input.n(),
                phi_lists(*input, *dt, pv@),
                preds@.len() == n,
                forall|c: int| 0 <= c < n ==> pred_list(*input, c, #[trigger] preds@[c]@),
                table_ok(*input, pv@, defs@, total as int),
                b <= n,
                blocks@.len() == b,
                forall|c: int|
                    0 <= c < b ==> block_renamed(
                        *input,
                        pv@,
                        preds@,
                        defs@,
                        c,
                        #[trigger] blocks@[c],
                    ),
            decreases n - b,
        {
            let ghost bi = b as int;
            let k = pv[b].len();
            let ib = &input.blocks[b];
            let len = ib.statements.len();
            proof {
                assert(dt_ok(*input, *dt, defs@));
                assert forall|j: int| 0 <= j < preds@[bi]@.len() implies #[trigger] preds@[bi]@[j] < n by {
                    assert(pred_list(*input, bi, preds@[bi]@));
                    assert(input.edge(preds@[bi]@[j] as int, bi));
                }
            }
            let mut st: Vec<Statement> = Vec::new();
            let mut j: usize = 0;
            while j < k
                invariant
                    input.wf(),
                    dt_ok(*input, *dt, defs@),
                    n == input.n(),
                    b < n,
                    bi == b,
                    k == pv@[bi]@.len(),
                    phi_lists(*input, *dt, pv@),
                    preds@.len() == n,
                    table_ok(*input, pv@, defs@, total as int),
                    forall|i: int| 0 <= i < preds@[bi]@.len() ==> #[trigger] preds@[bi]@[i] < n,
                    j <= k,
                    st@.len() == j,
                    forall|i: int|
                        0 <= i < j ==> (#[trigger] st@[i]).rvalue is Phi && named_at(
                            defs@,
                            bi,
                            i,
                            st@[i].dest,
                        ) && phi_ok(*input, defs@, preds@[bi]@, pv@[bi]@[i] as int, st@[i].rvalue->Phi_0@),
                decreases k - j,
            {
                assert(def_var_at(*input, pv@, bi, j as int) is Some);
                let dest = name_of(&defs, b, j);
                let args = phi_args(input, dt, &defs, &preds[b], pv[b][j]);
                st.push(Statement { dest, rvalue: Rvalue::Phi(args) });
                j += 1;
            }
            let mut i: usize = 0;
            while i < len
                invariant
                    input.wf(),
                    dt_ok(*input, *dt, defs@),
                    n == input.n(),
                    b < n,
                    bi == b,
                    k == pv@[bi]@.len(),
                    ib == input.blocks@[bi],
                    len == ib.statements@.len(),
                    table_ok(*input, pv@, defs@, total as int),
                    i <= len,
                    st@.len() == k + i,
                    forall|j2: int|
                        0 <= j2 < k ==> (#[trigger] st@[j2]).rvalue is Phi && named_at(
                            defs@,
                            bi,
                            j2,
                            st@[j2].dest,
                        ) && phi_ok(*input, defs@, preds@[bi]@, pv@[bi]@[j2] as int, st@[j2].rvalue->Phi_0@),
                    forall|j2: int|
                        k <= j2 < k + i ==> named_at(defs@, bi, j2, (#[trigger] st@[j2]).dest)
                            && renamed_rvalue(*input, defs@, ib.statements@[j2 - k].rvalue, st@[j2].rvalue, bi, j2),
                decreases len - i,
            {
                assert(def_var_at(*input, pv@, bi, (k + i) as int) is Some);
                let dest = name_of(&defs, b, k + i);
                proof {
                    assert(input.block_plain(bi));
                    assert(!crate::cfg::is_marker(ib.statements@[i as int].rvalue));
                }
                let rv = rename_rvalue(input, dt, &defs, &ib.statements[i].rvalue, b, k + i);
                st.push(Statement { dest, rvalue: rv });
                i += 1;
            }
            proof {
                if call_dest(ib.terminator) is Some {
                    assert(def_var_at(*input, pv@, bi, (k + len) as int) is Some);
                }
            }
            let end = st.len();
            let term = rename_terminator(input, dt, &defs, &ib.terminator, b, end);
            blocks.push(BasicBlock { statements: st, terminator: term });
            proof {
                let ob = blocks@[bi];
                assert(ob.statements@ == st@);
                assert(block_renamed(*input, pv@, preds@, defs@, bi, ob));
            }
            b += 1;
        }
        SsaForm { body: Body { blocks, num_vars: total }, defs, phi_vars: pv, preds }
    }
}


/// Some definition of `v` in the input dominates the point `(b, i)`.
pub open spec fn use_reached(body: Body, v: int, b: int, i: int) -> bool {
    exists|db: int, di: int|
        #![trigger defines_at(body, db, di, v)]
        defines_at(body, db, di, v) && point_dominates(body, db, di, b, i)
}

pub open spec fn operand_reached(body: Body, o: Operand, b: int, i: int) -> bool {
    match o {
        Operand::Var(v) => use_reached(body, v as int, b, i),
        Operand::Const(_) => true,
    }
}

pub open spec fn rvalue_reached(body: Body, r: Rvalue, b: int, i: int) -> bool {
    match r {
        Rvalue::Use(x) => operand_reached(body, x, b, i),
        Rvalue::UnaryOp(_, x) => operand_reached(body, x, b, i),
        Rvalue::BinaryOp(_, x, y) => operand_reached(body, x, b, i) && operand_reached(body, y, b, i),
        _ => true,
    }
}

pub open spec fn term_reached(body: Body, t: Terminator, b: int, i: int) -> bool {
    match t {
        Terminator::SwitchInt { discr, .. } => operand_reached(body, discr, b, i),
        _ => true,
    }
}

/// Every use in the body is reached by a dominating definition of its variable.
pub open spec fn strict(body: Body) -> bool {
    &&& forall|b: int, i: int|
        0 <= b < body.n() && 0 <= i < body.blocks@[b].statements@.len() ==> rvalue_reached(
            body,
            #[trigger] body.blocks@[b].statements@[i].rvalue,
            b,
            i,
        )
    &&& forall|b: int|
        0 <= b < body.n() ==> term_reached(
            body,
            #[trigger] body.blocks@[b].terminator,
            b,
            body.blocks@[b].statements@.len() as int,
        )
}

/// The SSA operand `o` for the input operand `a` names a definition of the
/// same variable that dominates the use at `(ub, ui)`.
pub open spec fn operand_sound(body: Body, defs: Seq<DefSite>, a: Operand, o: Operand, ub: int, ui: int) -> bool {
    match a {
        Operand::Var(v) => o is Var && exists|j: int|
            0 <= j < defs.len() && candidate(body, #[trigger] defs[j], v as int, ub, ui)
                && defs[j].name == o->Var_0,
        Operand::Const(_) => true,
    }
}

pub open spec fn rvalue_sound(body: Body, defs: Seq<DefSite>, a: Rvalue, o: Rvalue, ub: int, ui: int) -> bool {
    match a {
        Rvalue::Use(x) => operand_sound(body, defs, x, o->Use_0, ub, ui),
        Rvalue::UnaryOp(_, x) => operand_sound(body, defs, x, o->UnaryOp_1, ub, ui),
        Rvalue::BinaryOp(_, x, y) => operand_sound(body, defs, x, o->BinaryOp_1, ub, ui)
            && operand_sound(body, defs, y, o->BinaryOp_2, ub, ui),
        _ => true,
    }
}

pub open spec fn term_sound(body: Body, defs: Seq<DefSite>, a: Terminator, t: Terminator, ub: int, ui: int) -> bool {
    match a {
        Terminator::SwitchInt { discr, .. } => operand_sound(body, defs, discr, t->discr, ub, ui),
        _ => true,
    }
}

/// What the SSA form defines at `(b, idx)`: a statement's destination, or
/// (one past the last statement) the call's result.
pub open spec fn out_def(out: Body, b: int, idx: int) -> Option<usize> {
    let len = out.blocks@[b].statements@.len() as int;
    if 0 <= idx < len {
        Some(out.blocks@[b].statements@[idx].dest)
    } else if idx == len {
        call_dest(out.blocks@[b].terminator)
    } else {
        None
    }
}

proof fn lemma_operand_sound(
    input: Body,
    dt: DominatorTree,
    ssa: SsaForm,
    a: Operand,
    o: Operand,
    b: int,
    i: int,
)
    requires
        ssa.built_from(input, dt),
        0 <= b < input.n(),
        0 <= i <= input.blocks@[b].statements@.len(),
        operand_reached(input, a, b, i),
        renamed_operand(input, ssa.defs@, a, o, b, ssa.phi_vars@[b]@.len() + i),
    ensures
        operand_sound(input, ssa.defs@, a, o, b, ssa.phi_vars@[b]@.len() + i),
{
    if let Operand::Var(v) = a {
        let defs = ssa.defs@;
        let pv = ssa.phi_vars@;
        let (db, di) = choose|db: int, di: int|
            #![trigger defines_at(input, db, di, v as int)]
            defines_at(input, db, di, v as int) && point_dominates(input, db, di, b, i);
        let kd = pv[db]@.len() as int;
        assert(def_var_at(input, pv, db, kd + di) == Some(v));
        let j = choose|j: int|
            0 <= j < defs.len() && (#[trigger] defs[j]).block == db && defs[j].index == kd + di;
        assert(def_var_at(input, pv, defs[j].block as int, defs[j].index as int) == Some(defs[j].var));
        assert(candidate(input, defs[j], v as int, b, pv[b]@.len() + i));
    }
}

/// Renaming soundness. For an input in which every use is reached by a
/// dominating definition, every use of a statement or branch in the SSA form
/// names a definition of the same pre-SSA variable whose place dominates the
/// use; and no two places of the SSA form define the same name.
pub proof fn lemma_renaming_sound(input: Body, dt: DominatorTree, ssa: SsaForm)
    requires
        input.wf(),
        ssa.built_from(input, dt),
        strict(input),
    ensures
        forall|b: int, i: int|
            0 <= b < input.n() && 0 <= i < input.blocks@[b].statements@.len() ==> rvalue_sound(
                input,
                ssa.defs@,
                #[trigger] input.blocks@[b].statements@[i].rvalue,
                ssa.body.blocks@[b].statements@[ssa.phi_vars@[b]@.len() + i].rvalue,
                b,
                ssa.phi_vars@[b]@.len() + i,
            ),
        forall|b: int|
            0 <= b < input.n() ==> term_sound(
                input,
                ssa.defs@,
                #[trigger] input.blocks@[b].terminator,
                ssa.body.blocks@[b].terminator,
                b,
                (ssa.phi_vars@[b]@.len() + input.blocks@[b].statements@.len()) as int,
            ),
        forall|b1: int, i1: int, b2: int, i2: int|
            0 <= b1 < input.n() && 0 <= b2 < input.n() && (b1 != b2 || i1 != i2) && #[trigger] out_def(
                ssa.body,
                b1,
                i1,
            ) is Some && #[trigger] out_def(ssa.body, b2, i2) is Some ==> out_def(ssa.body, b1, i1)
                != out_def(ssa.body, b2, i2),
{
    let defs = ssa.defs@;
    let pv = ssa.phi_vars@;
    assert forall|b: int, i: int|
        0 <= b < input.n() && 0 <= i < input.blocks@[b].statements@.len() implies rvalue_sound(
            input,
            defs,
            #[trigger] input.blocks@[b].statements@[i].rvalue,
            ssa.body.blocks@[b].statements@[pv[b]@.len() + i].rvalue,
            b,
            pv[b]@.len() + i,
        ) by {
        let k = pv[b]@.len() as int;
        let a = input.blocks@[b].statements@[i].rvalue;
        let o = ssa.body.blocks@[b].statements@[k + i].rvalue;
        assert(block_renamed(input, pv, ssa.preds@, defs, b, ssa.body.blocks@[b]));
        assert(renamed_rvalue(input, defs, a, o, b, k + i));
        assert(rvalue_reached(input, a, b, i));
        assert(input.block_plain(b));
        match a {
            Rvalue::Use(x) => {
                lemma_operand_sound(input, dt, ssa, x, o->Use_0, b, i);
            },
            Rvalue::UnaryOp(_, x) => {
                lemma_operand_sound(input, dt, ssa, x, o->UnaryOp_1, b, i);
            },
            Rvalue::BinaryOp(_, x, y) => {
                lemma_operand_sound(input, dt, ssa, x, o->BinaryOp_1, b, i);
                lemma_operand_sound(input, dt, ssa, y, o->BinaryOp_2, b, i);
            },
            _ => {},
        }
    }
    assert forall|b: int| 0 <= b < input.n() implies term_sound(
        input,
        defs,
        #[trigger] input.blocks@[b].terminator,
        ssa.body.blocks@[b].terminator,
        b,
        (pv[b]@.len() + input.blocks@[b].statements@.len()) as int,
    ) by {
        let len = input.blocks@[b].statements@.len() as int;
        assert(block_renamed(input, pv, ssa.preds@, defs, b, ssa.body.blocks@[b]));
        assert(term_reached(input, input.blocks@[b].terminator, b, len));
        if let Terminator::SwitchInt { discr, .. } = input.blocks@[b].terminator {
            lemma_operand_sound(input, dt, ssa, discr, ssa.body.blocks@[b].terminator->discr, b, len);
        }
    }
    assert forall|b1: int, i1: int, b2: int, i2: int|
        0 <= b1 < input.n() && 0 <= b2 < input.n() && (b1 != b2 || i1 != i2) && #[trigger] out_def(
            ssa.body,
            b1,
            i1,
        ) is Some && #[trigger] out_def(ssa.body, b2, i2) is Some implies out_def(ssa.body, b1, i1)
            != out_def(ssa.body, b2, i2) by {
        let j1 = lemma_out_def_named(input, dt, ssa, b1, i1);
        let j2 = lemma_out_def_named(input, dt, ssa, b2, i2);
        assert(j1 != j2);
    }
}

proof fn lemma_out_def_named(input: Body, dt: DominatorTree, ssa: SsaForm, b: int, idx: int) -> (j: int)
    requires
        ssa.built_from(input, dt),
        0 <= b < input.n(),
        out_def(ssa.body, b, idx) is Some,
    ensures
        0 <= j < ssa.defs@.len(),
        ssa.defs@[j].block == b && ssa.defs@[j].index == idx,
        out_def(ssa.body, b, idx) == Some(ssa.defs@[j].name),
{
    let defs = ssa.defs@;
    let pv = ssa.phi_vars@;
    let ob = ssa.body.blocks@[b];
    assert(block_renamed(input, pv, ssa.preds@, defs, b, ob));
    let k = pv[b]@.len() as int;
    let len = input.blocks@[b].statements@.len() as int;
    if idx < k {
        assert(named_at(defs, b, idx, ob.statements@[idx].dest));
        choose|j: int|
            0 <= j < defs.len() && (#[trigger] defs[j]).block == b && defs[j].index == idx
                && defs[j].name == ob.statements@[idx].dest
    } else if idx < k + len {
        assert(named_at(defs, b, idx, ob.statements@[idx].dest));
        choose|j: int|
            0 <= j < defs.len() && (#[trigger] defs[j]).block == b && defs[j].index == idx
                && defs[j].name == ob.statements@[idx].dest
    } else {
        let d = call_dest(ob.terminator)->Some_0;
        assert(renamed_term(input, defs, input.blocks@[b].terminator, ob.terminator, b, k + len));
        assert(named_at(defs, b, idx, d));
        choose|j: int|
            0 <= j < defs.len() && (#[trigger] defs[j]).block == b && defs[j].index == idx
                && defs[j].name == d
    }
}


/// Every name that the SSA form assigns is below its name count.
pub proof fn lemma_ssa_dests(input: Body, dt: DominatorTree, ssa: SsaForm)
    requires
        ssa.built_from(input, dt),
    ensures
        forall|b: int, s: int|
            0 <= b < ssa.body.n() && 0 <= s < ssa.body.blocks@[b].statements@.len() ==> (
            #[trigger] ssa.body.blocks@[b].statements@[s]).dest < ssa.body.num_vars,
{
    assert forall|b: int, s: int|
        0 <= b < ssa.body.n() && 0 <= s < ssa.body.blocks@[b].statements@.len() implies (
        #[trigger] ssa.body.blocks@[b].statements@[s]).dest < ssa.body.num_vars by {
        let ob = ssa.body.blocks@[b];
        assert(block_renamed(input, ssa.phi_vars@, ssa.preds@, ssa.defs@, b, ob));
        let k = ssa.phi_vars@[b]@.len() as int;
        if s < k {
            assert(named_at(ssa.defs@, b, s, ob.statements@[s].dest));
        } else {
            assert(named_at(ssa.defs@, b, s, ob.statements@[s].dest));
        }
    }
}

} // verus!
