use vstd::prelude::*;
use crate::range::{Range, RangeType, spec_full, within, DOMAIN_MIN, DOMAIN_MAX};
use crate::graph::BasicOpKind;
use crate::scc::{adj_ok, scc_ids};

verus! {

/// One widening step from range `o` (tag `tag`) towards the evaluated range
/// `e`: the range only grows; a bound that grows while the tag records a growth
/// in the same direction jumps to the end of the domain.
pub open spec fn spec_widen(o: Range, e: Range, tag: char) -> (Range, char) {
    if o.rtype == RangeType::Unknown {
        (e, tag)
    } else if e.rtype != RangeType::Regular {
        (o, tag)
    } else if o.rtype != RangeType::Regular {
        (e, tag)
    } else {
        let down = e.lower < o.lower;
        let up = e.upper > o.upper;
        let l = if down {
            if tag == '-' {
                DOMAIN_MIN
            } else {
                e.lower
            }
        } else {
            o.lower
        };
        let u = if up {
            if tag == '+' {
                DOMAIN_MAX
            } else {
                e.upper
            }
        } else {
            o.upper
        };
        let t = if up {
            '+'
        } else if down {
            '-'
        } else {
            tag
        };
        (Range { rtype: RangeType::Regular, lower: l, upper: u }, t)
    }
}

/// One narrowing step: a bound at the end of the domain, or one that the
/// evaluated range exceeds, takes the evaluated bound.
pub open spec fn spec_narrow(o: Range, e: Range) -> Range {
    if o.rtype != RangeType::Regular || e.rtype != RangeType::Regular {
        o
    } else {
        let l = if (o.lower == DOMAIN_MIN && e.lower > DOMAIN_MIN) || o.lower > e.lower {
            e.lower
        } else {
            o.lower
        };
        let u = if (o.upper == DOMAIN_MAX && e.upper < DOMAIN_MAX) || o.upper < e.upper {
            e.upper
        } else {
            o.upper
        };
        Range { rtype: RangeType::Regular, lower: l, upper: u }
    }
}

pub fn widen(o: Range, e: Range, tag: char) -> (r: (Range, char))
    ensures
        r == spec_widen(o, e, tag),
{
    if o.is_unknown() {
        (e, tag)
    } else if !e.is_regular() {
        (o, tag)
    } else if !o.is_regular() {
        (e, tag)
    } else {
        let down = e.lower < o.lower;
        let up = e.upper > o.upper;
        let l = if down {
            if tag == '-' {
                DOMAIN_MIN
            } else {
                e.lower
            }
        } else {
            o.lower
        };
        let u = if up {
            if tag == '+' {
                DOMAIN_MAX
            } else {
                e.upper
            }
        } else {
            o.upper
        };
        let t = if up {
            '+'
        } else if down {
            '-'
        } else {
            tag
        };
        (Range { rtype: RangeType::Regular, lower: l, upper: u }, t)
    }
}

pub fn narrow(o: Range, e: Range) -> (r: Range)
    ensures
        r == spec_narrow(o, e),
{
    if !o.is_regular() || !e.is_regular() {
        o
    } else {
        let l = if (o.lower == DOMAIN_MIN && e.lower > DOMAIN_MIN) || o.lower > e.lower {
            e.lower
        } else {
            o.lower
        };
        let u = if (o.upper == DOMAIN_MAX && e.upper < DOMAIN_MAX) || o.upper < e.upper {
            e.upper
        } else {
            o.upper
        };
        Range { rtype: RangeType::Regular, lower: l, upper: u }
    }
}

/// Some operation defines `x`.
pub open spec fn has_def(ops: Seq<BasicOpKind>, x: int) -> bool {
    exists|i: int| 0 <= i < ops.len() && (#[trigger] ops[i]).sink() == x
}

pub open spec fn sinks_ok(ops: Seq<BasicOpKind>, n: int) -> bool {
    forall|i: int| 0 <= i < ops.len() ==> (#[trigger] ops[i]).sink() < n
}

/// A sound solution: every name has a value (none is left `Unknown`), a name
/// that no operation defines may be anything, and what every operation gives
/// lies within the range of its sink.
pub open spec fn sound(ops: Seq<BasicOpKind>, rs: Seq<Range>) -> bool {
    &&& forall|x: int| 0 <= x < rs.len() ==> (#[trigger] rs[x]).rtype != RangeType::Unknown
    &&& forall|x: int| 0 <= x < rs.len() && !has_def(ops, x) ==> #[trigger] rs[x] == spec_full()
    &&& forall|i: int|
        0 <= i < ops.len() ==> within((#[trigger] ops[i]).spec_eval(rs), rs[ops[i].sink() as int])
}

/// A fixed point of both passes: no widening step and no narrowing step
/// changes anything.
pub open spec fn stable(ops: Seq<BasicOpKind>, rs: Seq<Range>, tags: Seq<char>) -> bool {
    &&& forall|x: int| 0 <= x < rs.len() ==> (#[trigger] rs[x]).rtype != RangeType::Unknown
    &&& forall|x: int| 0 <= x < rs.len() && !has_def(ops, x) ==> #[trigger] rs[x] == spec_full()
    &&& forall|i: int|
        0 <= i < ops.len() ==> {
            let x = (#[trigger] ops[i]).sink() as int;
            &&& spec_widen(rs[x], ops[i].spec_eval(rs), tags[x]) == (rs[x], tags[x])
            &&& spec_narrow(rs[x], ops[i].spec_eval(rs)) == rs[x]
        }
}

proof fn lemma_stable_sound(ops: Seq<BasicOpKind>, rs: Seq<Range>, tags: Seq<char>)
    requires
        stable(ops, rs, tags),
        sinks_ok(ops, rs.len() as int),
        tags.len() == rs.len(),
    ensures
        sound(ops, rs),
{
    assert forall|i: int| 0 <= i < ops.len() implies within(
        (#[trigger] ops[i]).spec_eval(rs),
        rs[ops[i].sink() as int],
    ) by {
        let x = ops[i].sink() as int;
        assert(spec_widen(rs[x], ops[i].spec_eval(rs), tags[x]) == (rs[x], tags[x]));
    }
}

proof fn lemma_full_sound(ops: Seq<BasicOpKind>, rs: Seq<Range>)
    requires
        sinks_ok(ops, rs.len() as int),
        forall|x: int| 0 <= x < rs.len() ==> #[trigger] rs[x] == spec_full(),
    ensures
        sound(ops, rs),
{
    assert forall|i: int| 0 <= i < ops.len() implies within(
        (#[trigger] ops[i]).spec_eval(rs),
        rs[ops[i].sink() as int],
    ) by {
        assert(rs[ops[i].sink() as int] == spec_full());
    }
}

fn has_def_exec(ops: &Vec<BasicOpKind>, x: usize) -> (r: bool)
    ensures
        r == has_def(ops@, x as int),
{
    let mut i: usize = 0;
    while i < ops.len()
        invariant
            i <= ops@.len(),
            forall|j: int| 0 <= j < i ==> (#[trigger] ops@[j]).sink() != x,
        decreases ops@.len() - i,
    {
        if ops[i].get_sink() == x {
            return true;
        }
        i += 1;
    }
    false
}

/// Whether `rs` is a sound solution.
pub fn check_sound(ops: &Vec<BasicOpKind>, rs: &Vec<Range>) -> (r: bool)
    requires
        sinks_ok(ops@, rs@.len() as int),
    ensures
        r == sound(ops@, rs@),
{
    let mut x: usize = 0;
    while x < rs.len()
        invariant
            x <= rs@.len(),
            forall|y: int| 0 <= y < x ==> (#[trigger] rs@[y]).rtype != RangeType::Unknown,
            forall|y: int| 0 <= y < x && !has_def(ops@, y) ==> #[trigger] rs@[y] == spec_full(),
        decreases rs@.len() - x,
    {
        if rs[x].is_unknown() {
            return false;
        }
        if !has_def_exec(ops, x) && rs[x] != Range::full() {
            return false;
        }
        x += 1;
    }
    let mut i: usize = 0;
    while i < ops.len()
        invariant
            sinks_ok(ops@, rs@.len() as int),
            i <= ops@.len(),
            forall|j: int|
                0 <= j < i ==> within((#[trigger] ops@[j]).spec_eval(rs@), rs@[ops@[j].sink() as int]),
        decreases ops@.len() - i,
    {
        let e = ops[i].eval(rs);
        let o = rs[ops[i].get_sink()];
        let w = e.is_unknown() || e.is_empty() || (o.is_regular() && e.is_regular() && o.lower <= e.lower
            && e.upper <= o.upper);
        if !w {
            return false;
        }
        i += 1;
    }
    true
}

/// Whether `rs` with `tags` is a fixed point of both passes.
pub fn check_stable(ops: &Vec<BasicOpKind>, rs: &Vec<Range>, tags: &Vec<char>) -> (r: bool)
    requires
        sinks_ok(ops@, rs@.len() as int),
        tags@.len() == rs@.len(),
    ensures
        r == stable(ops@, rs@, tags@),
{
    let mut x: usize = 0;
    while x < rs.len()
        invariant
            x <= rs@.len(),
            forall|y: int| 0 <= y < x ==> (#[trigger] rs@[y]).rtype != RangeType::Unknown,
            forall|y: int| 0 <= y < x && !has_def(ops@, y) ==> #[trigger] rs@[y] == spec_full(),
        decreases rs@.len() - x,
    {
        if rs[x].is_unknown() {
            return false;
        }
        if !has_def_exec(ops, x) && rs[x] != Range::full() {
            return false;
        }
        x += 1;
    }
    let mut i: usize = 0;
    while i < ops.len()
        invariant
            sinks_ok(ops@, rs@.len() as int),
            tags@.len() == rs@.len(),
            i <= ops@.len(),
            forall|j: int|
                0 <= j < i ==> {
                    let y = (#[trigger] ops@[j]).sink() as int;
                    &&& spec_widen(rs@[y], ops@[j].spec_eval(rs@), tags@[y]) == (rs@[y], tags@[y])
                    &&& spec_narrow(rs@[y], ops@[j].spec_eval(rs@)) == rs@[y]
                },
        decreases ops@.len() - i,
    {
        let e = ops[i].eval(rs);
        let y = ops[i].get_sink();
        let (wr, wt) = widen(rs[y], e, tags[y]);
        let nr = narrow(rs[y], e);
        if wr != rs[y] || wt != tags[y] || nr != rs[y] {
            return false;
        }
        i += 1;
    }
    true
}


pub fn uses_or_bounds(op: &BasicOpKind, x: usize) -> (r: bool)
    ensures
        r == (op.uses(x) || op.bounded_by(x)),
{
    match op {
        BasicOpKind::Unary(o) => o.source == crate::cfg::Operand::Var(x),
        BasicOpKind::Binary(o) => o.source1 == crate::cfg::Operand::Var(x) || o.source2
            == crate::cfg::Operand::Var(x),
        BasicOpKind::Essa(o) => o.source == x || match o.intersect {
            crate::essa::IntervalType::Symb(sy) => sy.symbound == x,
            _ => false,
        },
        BasicOpKind::Use(o) => o.source == crate::cfg::Operand::Var(x),
        BasicOpKind::Phi(o) => {
            let mut k: usize = 0;
            while k < o.sources.len()
                invariant
                    k <= o.sources@.len(),
                    op.uses(x) == o.sources@.contains(crate::cfg::Operand::Var(x)),
                    !op.bounded_by(x),
                    forall|j: int| 0 <= j < k ==> o.sources@[j] != crate::cfg::Operand::Var(x),
                decreases o.sources@.len() - k,
            {
                if o.sources[k] == crate::cfg::Operand::Var(x) {
                    assert(o.sources@[k as int] == crate::cfg::Operand::Var(x));
                    assert(o.sources@.contains(crate::cfg::Operand::Var(x)));
                    return true;
                }
                k += 1;
            }
            false
        },
    }
}

/// The dependency graph over names: `x -> y` when an operation defining `y`
/// reads `x` or is bounded by `x`.
pub fn dependency_graph(ops: &Vec<BasicOpKind>, n: usize) -> (r: Vec<Vec<usize>>)
    requires
        sinks_ok(ops@, n as int),
    ensures
        r@.len() == n,
        adj_ok(r@),
        forall|x: int, i: int|
            #![trigger ops@[i].uses(x as usize)]
            #![trigger ops@[i].bounded_by(x as usize)]
            0 <= x < n && 0 <= i < ops@.len() && (ops@[i].uses(x as usize)
                || ops@[i].bounded_by(x as usize)) ==> r@[x]@.contains(ops@[i].sink()),
{
    let mut adj: Vec<Vec<usize>> = Vec::new();
    let mut x: usize = 0;
    while x < n
        invariant
            sinks_ok(ops@, n as int),
            x <= n,
            adj@.len() == x,
            forall|y: int, k: int| 0 <= y < x && 0 <= k < adj@[y]@.len() ==> #[trigger] adj@[y]@[k] < n,
            forall|y: int, i: int|
                #![trigger ops@[i].uses(y as usize)]
                #![trigger ops@[i].bounded_by(y as usize)]
                0 <= y < x && 0 <= i < ops@.len() && (ops@[i].uses(y as usize)
                    || ops@[i].bounded_by(y as usize)) ==> adj@[y]@.contains(ops@[i].sink()),
        decreases n - x,
    {
        let mut l: Vec<usize> = Vec::new();
        let mut i: usize = 0;
        while i < ops.len()
            invariant
                sinks_ok(ops@, n as int),
                x < n,
                i <= ops@.len(),
                forall|k: int| 0 <= k < l@.len() ==> #[trigger] l@[k] < n,
                forall|j: int|
                    0 <= j < i && ((#[trigger] ops@[j]).uses(x) || ops@[j].bounded_by(x))
                        ==> l@.contains(ops@[j].sink()),
            decreases ops@.len() - i,
        {
            let ghost l0 = l@;
            if uses_or_bounds(&ops[i], x) {
                let y = ops[i].get_sink();
                l.push(y);
                proof {
                    assert(l@[l@.len() - 1] == y);
                    assert forall|j: int|
                        0 <= j < i + 1 && ((#[trigger] ops@[j]).uses(x) || ops@[j].bounded_by(x))
                            implies l@.contains(ops@[j].sink()) by {
                        if j < i {
                            let k = choose|k: int| 0 <= k < l0.len() && l0[k] == ops@[j].sink();
                            assert(l@[k] == ops@[j].sink());
                        }
                    }
                    assert forall|k: int| 0 <= k < l@.len() implies #[trigger] l@[k] < n by {
                        if k < l0.len() {
                            assert(l@[k] == l0[k]);
                        }
                    }
                }
            }
            i += 1;
        }
        adj.push(l);
        x += 1;
    }
    adj
}

/// Solves the operations of component `c` (the names `x` with `comp[x] == c`):
/// widening until nothing changes (a component that does not settle within
/// `budget` rounds goes to the full domain), the remaining `Unknown` ranges to
/// the full domain, then narrowing until nothing changes.
fn solve_component(
    ops: &Vec<BasicOpKind>,
    comp: &Vec<usize>,
    c: usize,
    budget: usize,
    ranges: &mut Vec<Range>,
    tags: &mut Vec<char>,
)
    requires
        sinks_ok(ops@, old(ranges)@.len() as int),
        comp@.len() == old(ranges)@.len(),
        old(tags)@.len() == old(ranges)@.len(),
        budget >= 1,
    ensures
        final(ranges)@.len() == old(ranges)@.len(),
        final(tags)@.len() == old(tags)@.len(),
        stable(ops@, old(ranges)@, old(tags)@) ==> final(ranges)@ == old(ranges)@ && final(tags)@
            == old(tags)@,
{
    let n = ranges.len();
    let ghost r0 = ranges@;
    let ghost t0 = tags@;
    let mut changed = true;
    let mut round: usize = 0;
    while changed && round < budget
        invariant
            sinks_ok(ops@, n as int),
            comp@.len() == n,
            ranges@.len() == n,
            tags@.len() == n,
            round <= budget,
            stable(ops@, r0, t0) ==> ranges@ == r0 && tags@ == t0 && (round > 0 ==> !changed),
        decreases budget - round,
    {
        changed = false;
        let mut i: usize = 0;
        while i < ops.len()
            invariant
                sinks_ok(ops@, n as int),
                comp@.len() == n,
                ranges@.len() == n,
                tags@.len() == n,
                i <= ops@.len(),
                stable(ops@, r0, t0) ==> ranges@ == r0 && tags@ == t0 && !changed,
            decreases ops@.len() - i,
        {
            let x = ops[i].get_sink();
            if comp[x] == c {
                let e = ops[i].eval(ranges);
                proof {
                    if stable(ops@, r0, t0) {
                        let op = ops@[i as int];
                        assert(spec_widen(r0[x as int], op.spec_eval(r0), t0[x as int]) == (r0[x as int], t0[x as int]));
                    }
                }
                let (wr, wt) = widen(ranges[x], e, tags[x]);
                if wr != ranges[x] || wt != tags[x] {
                    ranges.set(x, wr);
                    tags.set(x, wt);
                    changed = true;
                }
            }
            i += 1;
        }
        round += 1;
    }
    if changed {
        let mut x: usize = 0;
        while x < n
            invariant
                ranges@.len() == n,
                comp@.len() == n,
                x <= n,
                changed,
                stable(ops@, r0, t0) ==> ranges@ == r0 && tags@ == t0 && !changed,
            decreases n - x,
        {
            if comp[x] == c {
                ranges.set(x, Range::full());
            }
            x += 1;
        }
    }
    let mut x: usize = 0;
    while x < n
        invariant
            ranges@.len() == n,
            comp@.len() == n,
            x <= n,
            stable(ops@, r0, t0) ==> ranges@ == r0 && tags@ == t0,
        decreases n - x,
    {
        if comp[x] == c && ranges[x].is_unknown() {
            ranges.set(x, Range::full());
        }
        x += 1;
    }
    let mut changed = true;
    let mut round: usize = 0;
    while changed && round < budget
        invariant
            sinks_ok(ops@, n as int),
            comp@.len() == n,
            ranges@.len() == n,
            tags@.len() == n,
            round <= budget,
            stable(ops@, r0, t0) ==> ranges@ == r0 && tags@ == t0 && (round > 0 ==> !changed),
        decreases budget - round,
    {
        changed = false;
        let mut i: usize = 0;
        while i < ops.len()
            invariant
                sinks_ok(ops@, n as int),
                comp@.len() == n,
                ranges@.len() == n,
                tags@.len() == n,
                i <= ops@.len(),
                stable(ops@, r0, t0) ==> ranges@ == r0 && tags@ == t0 && !changed,
            decreases ops@.len() - i,
        {
            let x = ops[i].get_sink();
            if comp[x] == c {
                let e = ops[i].eval(ranges);
                proof {
                    if stable(ops@, r0, t0) {
                        let op = ops@[i as int];
                        assert(spec_narrow(r0[x as int], op.spec_eval(r0)) == r0[x as int]);
                    }
                }
                let nr = narrow(ranges[x], e);
                if nr != ranges[x] {
                    ranges.set(x, nr);
                    changed = true;
                }
            }
            i += 1;
        }
        round += 1;
    }
}

/// Whether every component that an edge into component `c` comes from is done.
fn component_ready(adj: &Vec<Vec<usize>>, comp: &Vec<usize>, done: &Vec<bool>, c: usize) -> bool
    requires
        adj_ok(adj@),
        comp@.len() == adj@.len(),
        forall|x: int| 0 <= x < comp@.len() ==> #[trigger] comp@[x] < done@.len(),
{
    let mut y: usize = 0;
    while y < adj.len()
        invariant
            adj_ok(adj@),
            comp@.len() == adj@.len(),
            forall|x: int| 0 <= x < comp@.len() ==> #[trigger] comp@[x] < done@.len(),
            y <= adj@.len(),
        decreases adj@.len() - y,
    {
        if comp[y] != c && !done[comp[y]] {
            let mut k: usize = 0;
            while k < adj[y].len()
                invariant
                    adj_ok(adj@),
                    comp@.len() == adj@.len(),
                    y < adj@.len(),
                    k <= adj@[y as int]@.len(),
                decreases adj@[y as int]@.len() - k,
            {
                if comp[adj[y][k]] == c {
                    return false;
                }
                k += 1;
            }
        }
        y += 1;
    }
    true
}

/// Solves the ranges of all names: components of the dependency graph in
/// topological order (a component waits for those it depends on), each
/// widened and narrowed to a fixed point. The result is always sound; where the
/// iteration cannot be shown to have settled, every name gets the full domain
/// and the result reports no convergence. On a solution that is already a
/// fixed point nothing changes.
pub fn solve(ops: &Vec<BasicOpKind>, ranges: &mut Vec<Range>, tags: &mut Vec<char>) -> (converged: bool)
    requires
        sinks_ok(ops@, old(ranges)@.len() as int),
        old(tags)@.len() == old(ranges)@.len(),
    ensures
        final(ranges)@.len() == old(ranges)@.len(),
        final(tags)@.len() == old(tags)@.len(),
        sound(ops@, final(ranges)@),
        converged == stable(ops@, final(ranges)@, final(tags)@),
        stable(ops@, old(ranges)@, old(tags)@) ==> final(ranges)@ == old(ranges)@ && final(tags)@
            == old(tags)@,
{
    let n = ranges.len();
    let ghost r0 = ranges@;
    let ghost t0 = tags@;
    let mut x: usize = 0;
    while x < n
        invariant
            sinks_ok(ops@, n as int),
            ranges@.len() == n,
            x <= n,
            stable(ops@, r0, t0) ==> ranges@ == r0,
        decreases n - x,
    {
        if !has_def_exec(ops, x) && ranges[x] != Range::full() {
            ranges.set(x, Range::full());
        }
        x += 1;
    }
    let adj = dependency_graph(ops, n);
    let (comp, ncomp) = scc_ids(&adj);
    let mut done: Vec<bool> = Vec::new();
    let mut c: usize = 0;
    while c < ncomp
        invariant
            c <= ncomp,
            done@.len() == c,
        decreases ncomp - c,
    {
        done.push(false);
        c += 1;
    }
    let budget: usize = if n < 1_000_000 {
        4 * n + 16
    } else {
        4_000_016
    };
    let mut step: usize = 0;
    while step < ncomp
        invariant
            sinks_ok(ops@, n as int),
            adj_ok(adj@),
            adj@.len() == n,
            comp@.len() == n,
            forall|y: int| 0 <= y < n ==> #[trigger] comp@[y] < ncomp,
            done@.len() == ncomp,
            ranges@.len() == n,
            tags@.len() == n,
            budget >= 1,
            step <= ncomp,
            stable(ops@, r0, t0) ==> ranges@ == r0 && tags@ == t0,
        decreases ncomp - step,
    {
        let mut pick = ncomp;
        let mut c: usize = 0;
        while c < ncomp
            invariant
                adj_ok(adj@),
                comp@.len() == adj@.len(),
                forall|y: int| 0 <= y < comp@.len() ==> #[trigger] comp@[y] < done@.len(),
                done@.len() == ncomp,
                c <= ncomp,
                pick <= ncomp,
            decreases ncomp - c,
        {
            if pick == ncomp && !done[c] && component_ready(&adj, &comp, &done, c) {
                pick = c;
            }
            c += 1;
        }
        let mut c: usize = 0;
        while c < ncomp
            invariant
                done@.len() == ncomp,
                c <= ncomp,
                pick <= ncomp,
            decreases ncomp - c,
        {
            if pick == ncomp && !done[c] {
                pick = c;
            }
            c += 1;
        }
        if pick < ncomp {
            solve_component(ops, &comp, pick, budget, ranges, tags);
            done.set(pick, true);
        }
        step += 1;
    }
    let converged = check_stable(ops, ranges, tags);
    if converged {
        proof {
            lemma_stable_sound(ops@, ranges@, tags@);
        }
    } else {
        proof {
            if stable(ops@, r0, t0) {
                assert(ranges@ == r0 && tags@ == t0);
            }
        }
    }
    proof {
        if stable(ops@, r0, t0) {
            lemma_stable_sound(ops@, r0, t0);
        }
    }
    if !check_sound(ops, ranges) {
        let mut x: usize = 0;
        while x < n
            invariant
                ranges@.len() == n,
                x <= n,
                forall|y: int| 0 <= y < x ==> #[trigger] ranges@[y] == spec_full(),
            decreases n - x,
        {
            ranges.set(x, Range::full());
            x += 1;
        }
        proof {
            lemma_full_sound(ops@, ranges@);
        }
        return check_stable(ops, ranges, tags);
    }
    converged
}

} // verus!
