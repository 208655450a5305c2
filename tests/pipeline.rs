use rap_interval::analysis::{AnalysisError, IntervalAnalysis};
use rap_interval::cfg::{BasicBlock, BinOp, Body, CfgError, Operand, Rvalue, Statement, Terminator};
use rap_interval::dominance::DominatorTree;
use rap_interval::essa::{apply_comparison, IntervalType};
use rap_interval::range::{Range, RangeType, DOMAIN_MAX, DOMAIN_MIN};
use rap_interval::ssa::SsaForm;

fn st(dest: usize, rvalue: Rvalue) -> Statement {
    Statement { dest, rvalue }
}

fn block(statements: Vec<Statement>, terminator: Terminator) -> BasicBlock {
    BasicBlock { statements, terminator }
}

fn branch(c: usize, on_true: usize, on_false: usize) -> Terminator {
    Terminator::SwitchInt { discr: Operand::Var(c), targets: vec![(0, on_false)], otherwise: on_true }
}

fn reg(lo: i64, hi: i64) -> Range {
    Range::new(lo, hi, RangeType::Regular)
}

/// entry(0) -> {left(1), right(2)} -> merge(3); variables a=0, c=1, x=2, y=3.
fn diamond() -> Body {
    Body {
        blocks: vec![
            block(
                vec![st(1, Rvalue::BinaryOp(BinOp::Lt, Operand::Var(0), Operand::Const(10)))],
                branch(1, 1, 2),
            ),
            block(vec![st(2, Rvalue::Use(Operand::Const(1)))], Terminator::Goto { block: 3 }),
            block(vec![st(2, Rvalue::Use(Operand::Const(2)))], Terminator::Goto { block: 3 }),
            block(vec![st(3, Rvalue::Use(Operand::Var(2)))], Terminator::Return),
        ],
        num_vars: 4,
    }
}

#[test]
fn diamond_dominance() {
    let body = diamond();
    let dom = DominatorTree::new(&body);
    assert_eq!(dom.frontier_of(1), vec![3]);
    assert_eq!(dom.frontier_of(2), vec![3]);
    assert_eq!(dom.frontier_of(0), Vec::<usize>::new());
    assert_eq!(dom.immediate_dominator(3), Some(0));
    assert_eq!(dom.immediate_dominator(1), Some(0));
    assert_eq!(dom.immediate_dominator(0), None);
    assert!(dom.dominates(0, 3));
    assert!(!dom.dominates(1, 3));
    assert_eq!(dom.children(0), vec![1, 2, 3]);
}

#[test]
fn diamond_minimal_ssa() {
    let body = diamond();
    let dom = DominatorTree::new(&body);
    let ssa = SsaForm::build(&body, &dom);
    let merge = &ssa.body.blocks[3].statements;
    let phis: Vec<&Statement> = merge.iter().filter(|s| matches!(s.rvalue, Rvalue::Phi(_))).collect();
    assert_eq!(phis.len(), 1);
    let left_def = ssa.body.blocks[1].statements[0].dest;
    let right_def = ssa.body.blocks[2].statements[0].dest;
    assert_ne!(left_def, right_def);
    match &phis[0].rvalue {
        Rvalue::Phi(args) => {
            assert_eq!(args.len(), 2);
            assert_eq!(args[0].pred, 1);
            assert_eq!(args[1].pred, 2);
            assert_eq!(args[0].value, Operand::Var(left_def));
            assert_eq!(args[1].value, Operand::Var(right_def));
        }
        _ => unreachable!(),
    }
    // The use of x in merge reads the phi; a single-definition variable keeps its index.
    assert_eq!(merge[1].rvalue_var(), Some(phis[0].dest));
    assert_eq!(merge[1].dest, 3);
}

trait UseVar {
    fn rvalue_var(&self) -> Option<usize>;
}

impl UseVar for Statement {
    fn rvalue_var(&self) -> Option<usize> {
        match self.rvalue {
            Rvalue::Use(Operand::Var(v)) => Some(v),
            _ => None,
        }
    }
}

#[test]
fn constant_propagation() {
    let body = Body { blocks: vec![block(vec![st(0, Rvalue::Use(Operand::Const(5)))], Terminator::Return)], num_vars: 1 };
    let a = IntervalAnalysis::new(body).unwrap();
    assert_eq!(a.get_range(0), reg(5, 5));
    assert!(a.is_converged());
}

#[test]
fn saturation_at_domain_max() {
    let body = Body {
        blocks: vec![block(
            vec![
                st(0, Rvalue::Use(Operand::Const(DOMAIN_MAX))),
                st(1, Rvalue::BinaryOp(BinOp::Add, Operand::Var(0), Operand::Const(1))),
            ],
            Terminator::Return,
        )],
        num_vars: 2,
    };
    let a = IntervalAnalysis::new(body).unwrap();
    assert_eq!(a.get_range(1), reg(DOMAIN_MAX, DOMAIN_MAX));
}

/// b0: c := x < 10; if c { b1 } else { b2 }; x (variable 0) comes from outside.
fn branch_on_lt(op: BinOp) -> Body {
    Body {
        blocks: vec![
            block(vec![st(1, Rvalue::BinaryOp(op, Operand::Var(0), Operand::Const(10)))], branch(1, 1, 2)),
            block(vec![], Terminator::Return),
            block(vec![], Terminator::Return),
        ],
        num_vars: 2,
    }
}

fn sigma_in(a: &IntervalAnalysis, b: usize) -> usize {
    let s = &a.essa.blocks[b].statements[0];
    assert!(matches!(s.rvalue, Rvalue::Essa(Operand::Var(0))));
    s.dest
}

#[test]
fn branch_refinement() {
    let a = IntervalAnalysis::new(branch_on_lt(BinOp::Lt)).unwrap();
    assert_eq!(a.get_range(0), Range::full());
    assert_eq!(a.get_range(sigma_in(&a, 1)), reg(DOMAIN_MIN, 10));
    assert_eq!(a.get_range(sigma_in(&a, 2)), reg(10, DOMAIN_MAX));
    match a.get_branch_constraint(0, 1) {
        Some(IntervalType::Basic(b)) => assert_eq!(b.get_range(), reg(DOMAIN_MIN, 10)),
        _ => panic!("no constraint on the true side"),
    }
    match a.get_branch_constraint(0, 2) {
        Some(IntervalType::Basic(b)) => assert_eq!(b.get_range(), reg(10, DOMAIN_MAX)),
        _ => panic!("no constraint on the false side"),
    }
    assert!(a.get_branch_constraint(0, 0).is_none());
}

#[test]
fn comparisons_do_not_tell_strictness_or_direction() {
    // `x > 10` refines like `x < 10`: the split point is kept and the sides are not swapped.
    let a = IntervalAnalysis::new(branch_on_lt(BinOp::Gt)).unwrap();
    assert_eq!(a.get_range(sigma_in(&a, 1)), reg(DOMAIN_MIN, 10));
    assert_eq!(a.get_range(sigma_in(&a, 2)), reg(10, DOMAIN_MAX));
    assert_eq!(apply_comparison(10, BinOp::Le, true, false), reg(DOMAIN_MIN, 10));
    assert_eq!(apply_comparison(10, BinOp::Lt, true, true), reg(10, DOMAIN_MAX));
    assert!(apply_comparison(10, BinOp::Ne, true, false).is_empty());
}

#[test]
fn comparison_of_two_variables_is_symbolic() {
    let body = Body {
        blocks: vec![
            block(vec![st(2, Rvalue::BinaryOp(BinOp::Lt, Operand::Var(0), Operand::Var(1)))], branch(2, 1, 2)),
            block(vec![], Terminator::Return),
            block(vec![], Terminator::Return),
        ],
        num_vars: 3,
    };
    let a = IntervalAnalysis::new(body).unwrap();
    match a.get_branch_constraint(0, 1) {
        Some(IntervalType::Symb(s)) => {
            assert_eq!(s.get_bound(), 1);
            assert!(s.get_operation());
            assert_eq!(s.get_range(), Range::full());
        }
        _ => panic!("expected a symbolic constraint"),
    }
    match a.get_branch_constraint(1, 2) {
        Some(IntervalType::Symb(s)) => {
            assert_eq!(s.get_bound(), 0);
            assert!(!s.get_operation());
        }
        _ => panic!("expected a symbolic constraint"),
    }
}

/// x := 0; loop { x := x + 1; if x >= N { break } }
fn counting_loop(n: i64) -> Body {
    Body {
        blocks: vec![
            block(vec![st(0, Rvalue::Use(Operand::Const(0)))], Terminator::Goto { block: 1 }),
            block(
                vec![
                    st(0, Rvalue::BinaryOp(BinOp::Add, Operand::Var(0), Operand::Const(1))),
                    st(1, Rvalue::BinaryOp(BinOp::Ge, Operand::Var(0), Operand::Const(n))),
                ],
                branch(1, 2, 1),
            ),
            block(vec![], Terminator::Return),
        ],
        num_vars: 2,
    }
}

#[test]
fn loop_reaches_a_fixed_point() {
    let n = 100;
    let a = IntervalAnalysis::new(counting_loop(n)).unwrap();
    assert!(a.is_converged());
    let phi = a.essa.blocks[1]
        .statements
        .iter()
        .find(|s| matches!(s.rvalue, Rvalue::Phi(_)))
        .map(|s| s.dest)
        .unwrap();
    let r = a.get_range(phi);
    assert!(r.is_regular());
    assert!(r.get_lower() <= 0 && r.get_upper() >= n);
    for x in 0..a.essa.num_vars {
        assert!(!a.get_range(x).is_unknown());
    }
}

#[test]
fn solving_again_changes_nothing() {
    let mut a = IntervalAnalysis::new(counting_loop(10)).unwrap();
    assert!(a.is_converged());
    let before: Vec<Range> = (0..a.essa.num_vars).map(|x| a.get_range(x)).collect();
    a.graph.find_intervals();
    let after: Vec<Range> = (0..a.essa.num_vars).map(|x| a.get_range(x)).collect();
    assert_eq!(before, after);
    assert!(a.is_converged());
}

#[test]
fn unknown_name_has_unknown_range() {
    let body = Body { blocks: vec![block(vec![], Terminator::Return)], num_vars: 1 };
    let a = IntervalAnalysis::new(body).unwrap();
    assert_eq!(a.get_range(0), Range::full());
    assert!(a.get_range(7).is_unknown());
}

#[test]
fn empty_body_has_no_entry() {
    let body = Body { blocks: vec![], num_vars: 0 };
    assert_eq!(IntervalAnalysis::new(body).err(), Some(AnalysisError::Cfg(CfgError::NoEntry)));
}

#[test]
fn missing_successor_is_reported() {
    let body = Body {
        blocks: vec![block(vec![], Terminator::Goto { block: 0 }), block(vec![], Terminator::Goto { block: 5 })],
        num_vars: 0,
    };
    assert_eq!(IntervalAnalysis::new(body).err(), Some(AnalysisError::Cfg(CfgError::BadSuccessor { block: 1 })));
}

#[test]
fn variable_out_of_range_is_reported() {
    let body = Body { blocks: vec![block(vec![st(3, Rvalue::Use(Operand::Const(1)))], Terminator::Return)], num_vars: 1 };
    assert_eq!(IntervalAnalysis::new(body).err(), Some(AnalysisError::Cfg(CfgError::BadVariable { block: 0 })));
}

#[test]
fn marker_in_input_is_reported() {
    let body = Body { blocks: vec![block(vec![st(0, Rvalue::Essa(Operand::Var(0)))], Terminator::Return)], num_vars: 1 };
    assert_eq!(
        IntervalAnalysis::new(body).err(),
        Some(AnalysisError::Cfg(CfgError::UnexpectedMarker { block: 0 }))
    );
}

#[test]
fn call_result_is_unknown_producing() {
    let body = Body {
        blocks: vec![
            block(vec![], Terminator::Call { destination: Some(0), target: Some(1) }),
            block(vec![st(1, Rvalue::BinaryOp(BinOp::Mul, Operand::Var(0), Operand::Const(0)))], Terminator::Return),
        ],
        num_vars: 2,
    };
    let a = IntervalAnalysis::new(body).unwrap();
    assert_eq!(a.get_range(0), Range::full());
    assert_eq!(a.get_range(1), reg(0, 0));
}

#[test]
fn unreachable_block_dominated_by_all() {
    let body = Body {
        blocks: vec![block(vec![], Terminator::Return), block(vec![], Terminator::Goto { block: 0 })],
        num_vars: 0,
    };
    let dom = DominatorTree::new(&body);
    assert!(dom.dominates(0, 1));
    assert!(!dom.dominates(1, 0));
}

#[test]
fn diamond_merge_joins_both_sides() {
    let a = IntervalAnalysis::new(diamond()).unwrap();
    assert!(a.is_converged());
    assert_eq!(a.get_range(3), reg(1, 2));
    assert_eq!(a.get_range(0), Range::full());
}
