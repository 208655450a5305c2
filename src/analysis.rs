use vstd::prelude::*;
use crate::cfg::{Body, CfgError};
use crate::range::{Range, RangeType};
use crate::dominance::DominatorTree;
use crate::ssa::{SsaForm, DefSite, names_fit, budget_upto, lemma_budget_mono, lemma_ssa_dests};
use crate::essa::{IntervalType, build_value_branch_map, insert_sigmas, lemma_sigma_count,
    expanded_from, entries_upto, branch_constraint_of, lemma_expanded_dests};
use crate::graph::ops_of;
use crate::cgraph::ConstraintGraph;
use crate::solver::{sound, stable};

verus! {

/// Why an analysis did not run.
#[derive(Clone, Copy, Debug, PartialEq, Eq, Structural)]
pub enum AnalysisError {
    /// The body is malformed.
    Cfg(CfgError),
    /// The SSA names of the body do not fit in `usize`.
    TooManyNames,
}

/// All names of the analysis fit in `usize`: those of the SSA form and at
/// most two sigmas per branch constraint for every block.
pub open spec fn analysis_fits(body: Body) -> bool {
    body.num_vars + budget_upto(body, body.n()) + 2 * body.n() * body.n() <= usize::MAX
}

/// Whether all names of the analysis of `body` fit in `usize`.
pub fn check_analysis_fits(body: &Body) -> (r: bool)
    ensures
        r == analysis_fits(*body),
{
    if !check_names_fit(body) {
        proof {
            assert(2 * body.n() * body.n() >= 0) by (nonlinear_arith);
        }
        return false;
    }
    let n = body.blocks.len();
    let ghost t = body.num_vars + budget_upto(*body, body.n());
    if n > 0xFFFF_FFFF {
        proof {
            assert(2 * body.n() * body.n() > usize::MAX) by (nonlinear_arith)
                requires
                    body.n() > 0xFFFF_FFFF,
            ;
            assert(budget_upto(*body, body.n()) >= 0) by {
                lemma_budget_mono(*body, 0, body.n());
            }
        }
        return false;
    }
    let nn = n as u128;
    proof {
        assert(2 * nn * nn <= 2 * 0xFFFF_FFFFu128 * 0xFFFF_FFFFu128) by (nonlinear_arith)
            requires
                nn <= 0xFFFF_FFFF,
        ;
    }
    let sq: u128 = 2 * nn * nn;
    let mut total: u128 = body.num_vars as u128;
    let mut b: usize = 0;
    while b < n
        invariant
            n == body.n(),
            b <= n,
            names_fit(*body),
            sq == 2 * body.n() * body.n(),
            sq <= 2 * 0xFFFF_FFFFu128 * 0xFFFF_FFFFu128,
            total == body.num_vars + budget_upto(*body, b as int),
        decreases n - b,
    {
        proof {
            lemma_budget_mono(*body, b as int + 1, n as int);
        }
        total = total + body.num_vars as u128 + body.blocks[b].statements.len() as u128 + 1;
        b += 1;
    }
    total + sq <= usize::MAX as u128
}

/// Whether the SSA names of `body` fit in `usize`.
pub fn check_names_fit(body: &Body) -> (r: bool)
    ensures
        r == names_fit(*body),
{
    let nv = body.num_vars;
    let mut t: usize = nv;
    let mut b: usize = 0;
    while b < body.blocks.len()
        invariant
            b <= body.n(),
            nv == body.num_vars,
            t == nv + budget_upto(*body, b as int),
        decreases body.n() - b,
    {
        let len = body.blocks[b].statements.len();
        if t > usize::MAX - nv || t + nv > usize::MAX - len || t + nv + len == usize::MAX {
            proof {
                lemma_budget_mono(*body, b as int + 1, body.n());
            }
            return false;
        }
        t = t + nv + len + 1;
        b += 1;
    }
    true
}

/// The whole analysis of one function body: dominance facts, SSA form,
/// e-SSA form and the solved constraint graph.
pub struct IntervalAnalysis {
    pub dom: DominatorTree,
    pub ssa: Ghost<SsaForm>,
    pub defs: Vec<DefSite>,
    pub essa: Body,
    pub graph: ConstraintGraph,
}

impl IntervalAnalysis {
    /// How the analysis of `body` was obtained, stage by stage.
    pub open spec fn analyzes(self, body: Body) -> bool {
        let ssa = self.ssa@;
        let maps = self.graph.values_branchmap@;
        &&& self.dom.describes(body)
        &&& ssa.built_from(body, self.dom)
        &&& self.defs@ == ssa.defs@
        &&& maps == entries_upto(ssa.body, ssa.body.n())
        &&& expanded_from(self.essa, ssa.body, maps)
        &&& self.graph.wf()
        &&& self.graph.vars@.len() == self.essa.num_vars
        &&& ops_of(self.essa, maps, self.graph.oprs@)
        &&& sound(self.graph.oprs@, self.graph.ranges())
        &&& self.graph.converged == stable(self.graph.oprs@, self.graph.ranges(), self.graph.tags())
    }

    /// Runs the pipeline on `body`: checks it, computes dominance, builds the
    /// SSA form, adds the sigmas of branch constraints, builds the constraint
    /// graph and solves it.
    pub fn new(body: Body) -> (r: Result<IntervalAnalysis, AnalysisError>)
        ensures
            r matches Err(AnalysisError::Cfg(_)) <==> !body.wf(),
            r matches Err(AnalysisError::Cfg(e)) ==> body.reported_fault(e),
            r matches Err(AnalysisError::TooManyNames) <==> body.wf() && !analysis_fits(body),
            r matches Ok(a) ==> a.analyzes(body),
    {
        match body.check() {
            Err(e) => {
                return Err(AnalysisError::Cfg(e));
            },
            Ok(()) => {},
        }
        if !check_analysis_fits(&body) {
            return Err(AnalysisError::TooManyNames);
        }
        proof {
            lemma_budget_mono(body, 0, body.n());
            assert(2 * body.n() * body.n() >= 0) by (nonlinear_arith);
        }
        let dom = DominatorTree::new(&body);
        let form = SsaForm::build(&body, &dom);
        let SsaForm { body: ssa_body, defs, phi_vars, preds } = form;
        let ghost ssa = SsaForm { body: ssa_body, defs, phi_vars, preds };
        let maps = build_value_branch_map(&ssa_body);
        proof {
            lemma_sigma_count(ssa_body);

            lemma_ssa_dests(body, dom, ssa);
        }
        let ghost ssa_b = ssa_body;
        let essa = insert_sigmas(ssa_body, &maps);
        proof {
            lemma_expanded_dests(essa, ssa_b, maps@);
        }
        let mut graph = ConstraintGraph::build_graph(&essa, maps);
        graph.find_intervals();
        Ok(IntervalAnalysis { dom, ssa: Ghost(ssa), defs, essa, graph })
    }

    /// The range of SSA name `x`; `Unknown` for a name the body does not have.
    pub fn get_range(&self, x: usize) -> (r: Range)
        ensures
            x < self.graph.vars@.len() ==> r == self.graph.ranges()[x as int],
            x >= self.graph.vars@.len() ==> r.rtype == RangeType::Unknown,
    {
        if x < self.graph.vars.len() {
            self.graph.get_range(x)
        } else {
            Range::unknown()
        }
    }

    /// The constraint that a branch puts on `variable` on entering `block`.
    pub fn get_branch_constraint(&self, variable: usize, block: usize) -> (r: Option<IntervalType>)
        ensures
            r == branch_constraint_of(self.graph.values_branchmap@, variable, block),
    {
        self.graph.get_branch_constraint(variable, block)
    }

    /// Whether the ranges are a fixed point of widening and narrowing.
    pub fn is_converged(&self) -> (r: bool)
        ensures
            r == self.graph.converged,
    {
        self.graph.is_converged()
    }
}

} // verus!
