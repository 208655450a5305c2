use vstd::prelude::*;
use crate::cfg::Body;
use crate::range::Range;
use crate::essa::{IntervalType, ValueBranchMap, branch_constraint_of, get_branch_constraint};
use crate::graph::{BasicOpKind, VarNode, ops_of, build_operations};
use crate::solver::{sinks_ok, has_def, sound, stable, solve, uses_or_bounds};

verus! {

/// Every statement of the body assigns a name below `num_vars`.
pub open spec fn dests_ok(body: Body) -> bool {
    forall|b: int, s: int|
        0 <= b < body.n() && 0 <= s < body.blocks@[b].statements@.len() ==> (
        #[trigger] body.blocks@[b].statements@[s]).dest < body.num_vars
}

/// The constraint graph of one e-SSA body: a node per name, the operations,
/// and the indices from names to the operations that define them, read them,
/// or are bounded by them.
pub struct ConstraintGraph {
    pub vars: Vec<VarNode>,
    pub oprs: Vec<BasicOpKind>,
    pub defmap: Vec<Option<usize>>,
    pub usemap: Vec<Vec<usize>>,
    pub symbmap: Vec<Vec<usize>>,
    pub values_branchmap: Vec<ValueBranchMap>,
    pub converged: bool,
}

impl ConstraintGraph {
    pub open spec fn ranges(self) -> Seq<Range> {
        Seq::new(self.vars@.len(), |i: int| self.vars@[i].interval)
    }

    pub open spec fn tags(self) -> Seq<char> {
        Seq::new(self.vars@.len(), |i: int| self.vars@[i].abstract_state)
    }

    /// The indices agree with the operations.
    pub open spec fn wf(self) -> bool {
        let n = self.vars@.len();
        let ops = self.oprs@;
        &&& sinks_ok(ops, n as int)
        &&& forall|x: int| 0 <= x < n ==> (#[trigger] self.vars@[x]).v == x
        &&& self.defmap@.len() == n
        &&& forall|x: int|
            0 <= x < n ==> ((#[trigger] self.defmap@[x]) is Some <==> has_def(ops, x))
        &&& forall|x: int|
            0 <= x < n && #[trigger] self.defmap@[x] is Some ==> self.defmap@[x]->Some_0 < ops.len()
                && ops[self.defmap@[x]->Some_0 as int].sink() == x
        &&& self.usemap@.len() == n
        &&& forall|x: int, k: int|
            0 <= x < n && 0 <= k < self.usemap@[x]@.len() ==> #[trigger] self.usemap@[x]@[k] < ops.len()
                && ops[self.usemap@[x]@[k] as int].uses(x as usize)
        &&& forall|x: int, i: int|
            #![trigger ops[i].uses(x as usize)]
            0 <= x < n && 0 <= i < ops.len() && ops[i].uses(x as usize) ==> self.usemap@[x]@.contains(i as usize)
        &&& self.symbmap@.len() == n
        &&& forall|x: int, k: int|
            0 <= x < n && 0 <= k < self.symbmap@[x]@.len() ==> #[trigger] self.symbmap@[x]@[k] < ops.len()
                && ops[self.symbmap@[x]@[k] as int].bounded_by(x as usize)
        &&& forall|x: int, i: int|
            #![trigger ops[i].bounded_by(x as usize)]
            0 <= x < n && 0 <= i < ops.len() && ops[i].bounded_by(x as usize) ==> self.symbmap@[x]@.contains(i as usize)
    }

    /// Builds the graph of an e-SSA body with its branch constraints; every
    /// range starts `Unknown`.
    pub fn build_graph(body: &Body, maps: Vec<ValueBranchMap>) -> (r: ConstraintGraph)
        requires
            dests_ok(*body),
        ensures
            r.wf(),
            r.vars@.len() == body.num_vars,
            ops_of(*body, maps@, r.oprs@),
            r.values_branchmap@ == maps@,
            forall|x: int| 0 <= x < body.num_vars ==> (#[trigger] r.ranges()[x]).rtype == crate::range::RangeType::Unknown,
            !r.converged,
    {
        let ops = build_operations(body, &maps);
        let n = body.num_vars;
        proof {
            assert forall|i: int| 0 <= i < ops@.len() implies (#[trigger] ops@[i]).sink() < n by {
                let l = ops@[i].inst();
                assert(body.blocks@[l.block as int].statements@[l.statement as int].dest < n);
            }
        }
        let mut vars: Vec<VarNode> = Vec::new();
        let mut defmap: Vec<Option<usize>> = Vec::new();
        let mut usemap: Vec<Vec<usize>> = Vec::new();
        let mut symbmap: Vec<Vec<usize>> = Vec::new();
        let mut x: usize = 0;
        while x < n
            invariant
                sinks_ok(ops@, n as int),
                x <= n,
                vars@.len() == x,
                defmap@.len() == x,
                usemap@.len() == x,
                symbmap@.len() == x,
                forall|y: int| 0 <= y < x ==> (#[trigger] vars@[y]).v == y && vars@[y].interval.rtype == crate::range::RangeType::Unknown,
                forall|y: int| 0 <= y < x ==> ((#[trigger] defmap@[y]) is Some <==> has_def(ops@, y)),
                forall|y: int|
                    0 <= y < x && #[trigger] defmap@[y] is Some ==> defmap@[y]->Some_0 < ops@.len()
                        && ops@[defmap@[y]->Some_0 as int].sink() == y,
                forall|y: int, k: int|
                    0 <= y < x && 0 <= k < usemap@[y]@.len() ==> #[trigger] usemap@[y]@[k] < ops@.len()
                        && ops@[usemap@[y]@[k] as int].uses(y as usize),
                forall|y: int, i: int|
                    #![trigger ops@[i].uses(y as usize)]
                    0 <= y < x && 0 <= i < ops@.len() && ops@[i].uses(y as usize) ==> usemap@[y]@.contains(i as usize),
                forall|y: int, k: int|
                    0 <= y < x && 0 <= k < symbmap@[y]@.len() ==> #[trigger] symbmap@[y]@[k] < ops@.len()
                        && ops@[symbmap@[y]@[k] as int].bounded_by(y as usize),
                forall|y: int, i: int|
                    #![trigger ops@[i].bounded_by(y as usize)]
                    0 <= y < x && 0 <= i < ops@.len() && ops@[i].bounded_by(y as usize) ==> symbmap@[y]@.contains(i as usize),
            decreases n - x,
        {
            vars.push(VarNode::new(x));
            let mut def: Option<usize> = None;
            let mut uses: Vec<usize> = Vec::new();
            let mut bounds: Vec<usize> = Vec::new();
            let mut i: usize = 0;
            while i < ops.len()
                invariant
                    i <= ops@.len(),
                    match def {
                        Some(d) => d < ops@.len() && ops@[d as int].sink() == x,
                        None => forall|j: int| 0 <= j < i ==> (#[trigger] ops@[j]).sink() != x,
                    },
                    forall|k: int| 0 <= k < uses@.len() ==> #[trigger] uses@[k] < ops@.len() && ops@[uses@[k] as int].uses(x),
                    forall|j: int| #![trigger ops@[j].uses(x)] 0 <= j < i && ops@[j].uses(x) ==> uses@.contains(j as usize),
                    forall|k: int| 0 <= k < bounds@.len() ==> #[trigger] bounds@[k] < ops@.len() && ops@[bounds@[k] as int].bounded_by(x),
                    forall|j: int| #![trigger ops@[j].bounded_by(x)] 0 <= j < i && ops@[j].bounded_by(x) ==> bounds@.contains(j as usize),
                decreases ops@.len() - i,
            {
                let op = &ops[i];
                if op.get_sink() == x {
                    def = Some(i);
                }
                let ub = uses_or_bounds(op, x);
                let bd = match op {
                    BasicOpKind::Essa(o) => match o.intersect {
                        IntervalType::Symb(sy) => sy.symbound == x,
                        _ => false,
                    },
                    _ => false,
                };
                let ghost u0 = uses@;
                let ghost b0 = bounds@;
                if bd {
                    bounds.push(i);
                    proof {
                        assert(bounds@[bounds@.len() - 1] == i);
                        assert forall|j: int| #![trigger ops@[j].bounded_by(x)] 0 <= j < i && ops@[j].bounded_by(x) implies bounds@.contains(j as usize) by {
                            let k = choose|k: int| 0 <= k < b0.len() && b0[k] == j as usize;
                            assert(bounds@[k] == j as usize);
                        }
                    }
                }
                let us = ub && (!bd || match op {
                    BasicOpKind::Essa(o) => o.source == x,
                    _ => true,
                });
                if us {
                    uses.push(i);
                    proof {
                        assert(uses@[uses@.len() - 1] == i);
                        assert forall|j: int| #![trigger ops@[j].uses(x)] 0 <= j < i && ops@[j].uses(x) implies uses@.contains(j as usize) by {
                            let k = choose|k: int| 0 <= k < u0.len() && u0[k] == j as usize;
                            assert(uses@[k] == j as usize);
                        }
                    }
                }
                i += 1;
            }
            defmap.push(def);
            usemap.push(uses);
            symbmap.push(bounds);
            x += 1;
        }
        let g = ConstraintGraph { vars, oprs: ops, defmap, usemap, symbmap, values_branchmap: maps, converged: false };
        proof {
            assert forall|y: int| 0 <= y < n implies (#[trigger] g.ranges()[y]).rtype == crate::range::RangeType::Unknown by {
                assert(g.vars@[y].interval.rtype == crate::range::RangeType::Unknown);
            }
        }
        g
    }
}


fn with_solution(vars: &Vec<VarNode>, rs: &Vec<Range>, ts: &Vec<char>) -> (r: Vec<VarNode>)
    requires
        rs@.len() == vars@.len(),
        ts@.len() == vars@.len(),
    ensures
        r@.len() == vars@.len(),
        forall|y: int|
            0 <= y < vars@.len() ==> (#[trigger] r@[y]).v == vars@[y].v && r@[y].interval == rs@[y]
                && r@[y].abstract_state == ts@[y],
{
    let mut nodes: Vec<VarNode> = Vec::new();
    let mut j: usize = 0;
    while j < vars.len()
        invariant
            rs@.len() == vars@.len(),
            ts@.len() == vars@.len(),
            j <= vars@.len(),
            nodes@.len() == j,
            forall|y: int|
                0 <= y < j ==> (#[trigger] nodes@[y]).v == vars@[y].v && nodes@[y].interval == rs@[y]
                    && nodes@[y].abstract_state == ts@[y],
        decreases vars@.len() - j,
    {
        let mut node = VarNode::new(vars[j].v);
        node.set_range(rs[j]);
        node.store_abstract_state(ts[j]);
        nodes.push(node);
        j += 1;
    }
    nodes
}

impl ConstraintGraph {
    /// Solves the ranges of all names (see `solve`): afterwards the ranges
    /// are sound, `converged` tells whether they are a fixed point of both
    /// passes, and on ranges that already were one nothing changes.
    pub fn find_intervals(&mut self)
        requires
            old(self).wf(),
        ensures
            final(self).wf(),
            final(self).oprs@ == old(self).oprs@,
            final(self).values_branchmap@ == old(self).values_branchmap@,
            final(self).vars@.len() == old(self).vars@.len(),
            sound(final(self).oprs@, final(self).ranges()),
            final(self).converged == stable(final(self).oprs@, final(self).ranges(), final(self).tags()),
            stable(old(self).oprs@, old(self).ranges(), old(self).tags()) ==> final(self).ranges()
                == old(self).ranges(),
    {
        let n = self.vars.len();
        let mut rs: Vec<Range> = Vec::new();
        let mut ts: Vec<char> = Vec::new();
        let mut x: usize = 0;
        while x < n
            invariant
                n == self.vars@.len(),
                x <= n,
                rs@ == self.ranges().subrange(0, x as int),
                ts@ == self.tags().subrange(0, x as int),
            decreases n - x,
        {
            rs.push(self.vars[x].interval);
            ts.push(self.vars[x].abstract_state);
            x += 1;
            assert(rs@ =~= self.ranges().subrange(0, x as int));
            assert(ts@ =~= self.tags().subrange(0, x as int));
        }
        assert(rs@ =~= self.ranges());
        assert(ts@ =~= self.tags());
        let converged = solve(&self.oprs, &mut rs, &mut ts);
        let nodes = with_solution(&self.vars, &rs, &ts);
        self.vars = nodes;
        self.converged = converged;
        assert(self.ranges() =~= rs@);
        assert(self.tags() =~= ts@);
    }

    /// The range computed for name `x`.
    pub fn get_range(&self, x: usize) -> (r: Range)
        requires
            x < self.vars@.len(),
        ensures
            r == self.ranges()[x as int],
    {
        self.vars[x].interval
    }

    pub fn is_converged(&self) -> (r: bool)
        ensures
            r == self.converged,
    {
        self.converged
    }

    /// The constraint that a branch puts on `variable` on entering `block`.
    pub fn get_branch_constraint(&self, variable: usize, block: usize) -> (r: Option<IntervalType>)
        ensures
            r == branch_constraint_of(self.values_branchmap@, variable, block),
    {
        get_branch_constraint(&self.values_branchmap, variable, block)
    }
}

} // verus!
