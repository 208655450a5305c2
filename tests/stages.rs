use rap_interval::cfg::{BasicBlock, BinOp, Body, Operand, Rvalue, Statement, Terminator};
use rap_interval::essa::{build_value_branch_map, insert_sigmas, BasicInterval, IntervalType};
use rap_interval::range::{Range, RangeType, DOMAIN_MAX, DOMAIN_MIN};
use rap_interval::scc::scc_ids;
use rap_interval::solver::{narrow, widen};

fn reg(lo: i64, hi: i64) -> Range {
    Range::new(lo, hi, RangeType::Regular)
}

#[test]
fn scc_groups_mutually_reachable_nodes() {
    // 0 -> 1 -> 2 -> 1, 2 -> 3
    let adj = vec![vec![1], vec![2], vec![1, 3], vec![]];
    let (comp, count) = scc_ids(&adj);
    assert_eq!(count, 3);
    assert_eq!(comp[1], comp[2]);
    assert_ne!(comp[0], comp[1]);
    assert_ne!(comp[3], comp[1]);
    assert_ne!(comp[0], comp[3]);
}

#[test]
fn widening_jumps_on_second_growth() {
    let (r1, t1) = widen(reg(0, 0), reg(0, 1), '?');
    assert_eq!((r1, t1), (reg(0, 1), '+'));
    let (r2, t2) = widen(r1, reg(0, 2), t1);
    assert_eq!((r2, t2), (reg(0, DOMAIN_MAX), '+'));
    let (r3, t3) = widen(reg(0, 5), reg(-1, 5), '-');
    assert_eq!((r3, t3), (reg(DOMAIN_MIN, 5), '-'));
    let (r4, _) = widen(Range::unknown(), reg(3, 4), '?');
    assert_eq!(r4, reg(3, 4));
}

#[test]
fn narrowing_takes_finite_bounds() {
    assert_eq!(narrow(reg(0, DOMAIN_MAX), reg(0, 10)), reg(0, 10));
    assert_eq!(narrow(reg(DOMAIN_MIN, 10), reg(-3, 10)), reg(-3, 10));
    assert_eq!(narrow(reg(0, 10), reg(2, 8)), reg(0, 10));
}

#[test]
fn predecessors_are_sorted() {
    let body = Body {
        blocks: vec![
            BasicBlock { statements: vec![], terminator: Terminator::Goto { block: 2 } },
            BasicBlock { statements: vec![], terminator: Terminator::Goto { block: 2 } },
            BasicBlock { statements: vec![], terminator: Terminator::Goto { block: 1 } },
        ],
        num_vars: 0,
    };
    let preds = body.predecessors();
    assert_eq!(preds[2], vec![0, 1]);
    assert_eq!(preds[1], vec![2]);
    assert_eq!(preds[0], Vec::<usize>::new());
}

#[test]
fn sigmas_head_the_branch_targets() {
    let body = Body {
        blocks: vec![
            BasicBlock {
                statements: vec![
                    Statement { dest: 2, rvalue: Rvalue::Use(Operand::Var(0)) },
                    Statement { dest: 1, rvalue: Rvalue::BinaryOp(BinOp::Le, Operand::Var(2), Operand::Const(3)) },
                ],
                terminator: Terminator::SwitchInt { discr: Operand::Var(1), targets: vec![(0, 2)], otherwise: 1 },
            },
            BasicBlock { statements: vec![], terminator: Terminator::Return },
            BasicBlock { statements: vec![], terminator: Terminator::Return },
        ],
        num_vars: 3,
    };
    let maps = build_value_branch_map(&body);
    assert_eq!(maps.len(), 1);
    // The comparison reads a copy of variable 0; the constraint is on variable 0.
    assert_eq!(maps[0].get_v(), 0);
    assert_eq!(maps[0].get_bb_true(), 1);
    assert_eq!(maps[0].get_bb_false(), 2);
    assert_eq!(maps[0].get_itv_t(), IntervalType::Basic(BasicInterval::new(reg(DOMAIN_MIN, 3))));
    assert_eq!(maps[0].get_itv_f(), IntervalType::Basic(BasicInterval::new(reg(3, DOMAIN_MAX))));
    let out = insert_sigmas(body, &maps);
    assert_eq!(out.num_vars, 5);
    assert_eq!(out.blocks[1].statements.len(), 1);
    assert_eq!(out.blocks[1].statements[0].dest, 3);
    assert!(matches!(out.blocks[1].statements[0].rvalue, Rvalue::Essa(Operand::Var(0))));
    assert_eq!(out.blocks[2].statements[0].dest, 4);
    assert_eq!(out.blocks[0].statements.len(), 2);
}

#[test]
fn crossed_bounds_make_a_basic_interval_empty() {
    let mut b = BasicInterval::new(reg(0, 1));
    b.set_range(reg(5, 2));
    assert!(b.get_range().is_empty());
    b.set_range(reg(2, 5));
    assert_eq!(b.get_range(), reg(2, 5));
}
