use vstd::prelude::*;
use crate::cfg::{Body, Rvalue, Operand, BinOp, PhiArg};
use crate::range::{Range, RangeType, ArithOp, UnaryKind, spec_full, spec_binary, spec_unary,
    spec_intersect, spec_union, regular};
use crate::essa::{BasicInterval, IntervalType, ValueBranchMap, branch_constraint_of, get_branch_constraint};

verus! {

/// The range that an operand stands for, given the ranges of the names.
pub open spec fn operand_range(o: Operand, rs: Seq<Range>) -> Range {
    match o {
        Operand::Const(c) => regular(c as int, c as int),
        Operand::Var(x) => if x < rs.len() {
            rs[x as int]
        } else {
            spec_full()
        },
    }
}

fn operand_range_exec(o: &Operand, rs: &Vec<Range>) -> (r: Range)
    ensures
        r == operand_range(*o, rs@),
{
    match o {
        Operand::Const(c) => Range::constant(*c),
        Operand::Var(x) => if *x < rs.len() {
            rs[*x]
        } else {
            Range::full()
        },
    }
}

pub open spec fn unknown_operand(o: Operand, rs: Seq<Range>) -> bool {
    operand_range(o, rs).rtype == RangeType::Unknown
}

/// Where an operation comes from: a statement of the e-SSA body.
#[derive(Clone, Copy, Debug, PartialEq, Eq, Structural)]
pub struct Location {
    pub block: usize,
    pub statement: usize,
}

/// A copy `sink := source`.
#[derive(Clone, Copy, Debug)]
pub struct UseOp {
    pub intersect: BasicInterval,
    pub sink: usize,
    pub inst: Location,
    pub source: Operand,
}

/// `sink := opcode source`.
#[derive(Clone, Copy, Debug)]
pub struct UnaryOp {
    pub intersect: BasicInterval,
    pub sink: usize,
    pub inst: Location,
    pub source: Operand,
    pub opcode: UnaryKind,
}

/// A sigma: `sink := source` refined by the branch constraint `intersect`.
#[derive(Clone, Copy, Debug)]
pub struct EssaOp {
    pub intersect: IntervalType,
    pub sink: usize,
    pub inst: Location,
    pub source: usize,
    pub unresolved: bool,
}

/// `sink := source1 opcode source2`.
#[derive(Clone, Copy, Debug)]
pub struct BinaryOp {
    pub intersect: BasicInterval,
    pub sink: usize,
    pub inst: Location,
    pub source1: Operand,
    pub source2: Operand,
    pub opcode: ArithOp,
}

/// `sink := phi(sources)`.
#[derive(Clone, Debug)]
pub struct PhiOp {
    pub intersect: BasicInterval,
    pub sink: usize,
    pub inst: Location,
    pub sources: Vec<Operand>,
}

/// An operation of the constraint graph.
#[derive(Clone, Debug)]
pub enum BasicOpKind {
    Unary(UnaryOp),
    Binary(BinaryOp),
    Essa(EssaOp),
    Phi(PhiOp),
    Use(UseOp),
}

/// The union of the ranges of `srcs`, ignoring those not yet computed.
pub open spec fn phi_range(srcs: Seq<Operand>, rs: Seq<Range>) -> Range
    decreases srcs.len(),
{
    if srcs.len() == 0 {
        Range { rtype: RangeType::Unknown, lower: 0, upper: 0 }
    } else {
        spec_union(phi_range(srcs.drop_last(), rs), operand_range(srcs.last(), rs))
    }
}

impl BasicOpKind {
    pub open spec fn sink(self) -> usize {
        match self {
            BasicOpKind::Unary(o) => o.sink,
            BasicOpKind::Binary(o) => o.sink,
            BasicOpKind::Essa(o) => o.sink,
            BasicOpKind::Phi(o) => o.sink,
            BasicOpKind::Use(o) => o.sink,
        }
    }

    pub open spec fn inst(self) -> Location {
        match self {
            BasicOpKind::Unary(o) => o.inst,
            BasicOpKind::Binary(o) => o.inst,
            BasicOpKind::Essa(o) => o.inst,
            BasicOpKind::Phi(o) => o.inst,
            BasicOpKind::Use(o) => o.inst,
        }
    }

    /// `x` is an operand of the operation.
    pub open spec fn uses(self, x: usize) -> bool {
        match self {
            BasicOpKind::Unary(o) => o.source == Operand::Var(x),
            BasicOpKind::Binary(o) => o.source1 == Operand::Var(x) || o.source2 == Operand::Var(x),
            BasicOpKind::Essa(o) => o.source == x,
            BasicOpKind::Phi(o) => o.sources@.contains(Operand::Var(x)),
            BasicOpKind::Use(o) => o.source == Operand::Var(x),
        }
    }

    /// `x` is the symbolic bound of a sigma.
    pub open spec fn bounded_by(self, x: usize) -> bool {
        match self {
            BasicOpKind::Essa(o) => match o.intersect {
                IntervalType::Symb(s) => s.symbound == x,
                _ => false,
            },
            _ => false,
        }
    }

    /// What the operation gives from the ranges `rs` of the names. Phis join
    /// the operands computed so far; the other operations wait (`Unknown`)
    /// while an operand is not computed; symbolic bounds stand for their base
    /// range (the full domain).
    pub open spec fn spec_eval(self, rs: Seq<Range>) -> Range {
        match self {
            BasicOpKind::Phi(o) => phi_range(o.sources@, rs),
            BasicOpKind::Use(o) => if unknown_operand(o.source, rs) {
                Range { rtype: RangeType::Unknown, ..operand_range(o.source, rs) }
            } else {
                operand_range(o.source, rs)
            },
            BasicOpKind::Unary(o) => if unknown_operand(o.source, rs) {
                Range { rtype: RangeType::Unknown, ..operand_range(o.source, rs) }
            } else {
                spec_unary(o.opcode, operand_range(o.source, rs))
            },
            BasicOpKind::Binary(o) => if unknown_operand(o.source1, rs) {
                Range { rtype: RangeType::Unknown, ..operand_range(o.source1, rs) }
            } else if unknown_operand(o.source2, rs) {
                Range { rtype: RangeType::Unknown, ..operand_range(o.source2, rs) }
            } else {
                spec_binary(o.opcode, operand_range(o.source1, rs), operand_range(o.source2, rs))
            },
            BasicOpKind::Essa(o) => if unknown_operand(Operand::Var(o.source), rs) {
                Range { rtype: RangeType::Unknown, ..operand_range(Operand::Var(o.source), rs) }
            } else {
                spec_intersect(operand_range(Operand::Var(o.source), rs), o.intersect.spec_range())
            },
        }
    }

    pub fn get_sink(&self) -> (r: usize)
        ensures
            r == self.sink(),
    {
        match self {
            BasicOpKind::Unary(o) => o.sink,
            BasicOpKind::Binary(o) => o.sink,
            BasicOpKind::Essa(o) => o.sink,
            BasicOpKind::Phi(o) => o.sink,
            BasicOpKind::Use(o) => o.sink,
        }
    }

    /// Evaluates the operation by interval arithmetic.
    pub fn eval(&self, rs: &Vec<Range>) -> (r: Range)
        ensures
            r == self.spec_eval(rs@),
    {
        match self {
            BasicOpKind::Phi(o) => o.eval(rs),
            BasicOpKind::Use(o) => o.eval(rs),
            BasicOpKind::Unary(o) => o.eval(rs),
            BasicOpKind::Binary(o) => o.eval(rs),
            BasicOpKind::Essa(o) => o.eval(rs),
        }
    }
}

impl UseOp {
    pub fn new(intersect: BasicInterval, sink: usize, inst: Location, source: Operand) -> (r: UseOp)
        ensures
            r == (UseOp { intersect, sink, inst, source }),
    {
        UseOp { intersect, sink, inst, source }
    }

    pub fn eval(&self, rs: &Vec<Range>) -> (r: Range)
        ensures
            r == BasicOpKind::Use(*self).spec_eval(rs@),
    {
        let a = operand_range_exec(&self.source, rs);
        if a.is_unknown() {
            Range { rtype: RangeType::Unknown, ..a }
        } else {
            a
        }
    }
}

impl UnaryOp {
    pub fn new(intersect: BasicInterval, sink: usize, inst: Location, source: Operand, opcode: UnaryKind) -> (r: UnaryOp)
        ensures
            r == (UnaryOp { intersect, sink, inst, source, opcode }),
    {
        UnaryOp { intersect, sink, inst, source, opcode }
    }

    pub fn eval(&self, rs: &Vec<Range>) -> (r: Range)
        ensures
            r == BasicOpKind::Unary(*self).spec_eval(rs@),
    {
        let a = operand_range_exec(&self.source, rs);
        if a.is_unknown() {
            Range { rtype: RangeType::Unknown, ..a }
        } else {
            a.unary(self.opcode)
        }
    }
}

impl BinaryOp {
    pub fn new(
        intersect: BasicInterval,
        sink: usize,
        inst: Location,
        source1: Operand,
        source2: Operand,
        opcode: ArithOp,
    ) -> (r: BinaryOp)
        ensures
            r == (BinaryOp { intersect, sink, inst, source1, source2, opcode }),
    {
        BinaryOp { intersect, sink, inst, source1, source2, opcode }
    }

    pub fn eval(&self, rs: &Vec<Range>) -> (r: Range)
        ensures
            r == BasicOpKind::Binary(*self).spec_eval(rs@),
    {
        let a = operand_range_exec(&self.source1, rs);
        let b = operand_range_exec(&self.source2, rs);
        if a.is_unknown() {
            Range { rtype: RangeType::Unknown, ..a }
        } else if b.is_unknown() {
            Range { rtype: RangeType::Unknown, ..b }
        } else {
            a.binary(self.opcode, &b)
        }
    }
}

impl EssaOp {
    pub fn new(intersect: IntervalType, sink: usize, inst: Location, source: usize) -> (r: EssaOp)
        ensures
            r == (EssaOp { intersect, sink, inst, source, unresolved: true }),
    {
        EssaOp { intersect, sink, inst, source, unresolved: true }
    }

    pub fn eval(&self, rs: &Vec<Range>) -> (r: Range)
        ensures
            r == BasicOpKind::Essa(*self).spec_eval(rs@),
    {
        let a = operand_range_exec(&Operand::Var(self.source), rs);
        if a.is_unknown() {
            Range { rtype: RangeType::Unknown, ..a }
        } else {
            a.intersect(&self.intersect.get_range())
        }
    }

    pub fn is_unresolved(&self) -> (r: bool)
        ensures
            r == self.unresolved,
    {
        self.unresolved
    }

    pub fn mark_resolved(&mut self)
        ensures
            *final(self) == (EssaOp { unresolved: false, ..*old(self) }),
    {
        self.unresolved = false;
    }

    pub fn mark_unresolved(&mut self)
        ensures
            *final(self) == (EssaOp { unresolved: true, ..*old(self) }),
    {
        self.unresolved = true;
    }
}

impl PhiOp {
    pub fn new(intersect: BasicInterval, sink: usize, inst: Location) -> (r: PhiOp)
        ensures
            r.intersect == intersect,
            r.sink == sink,
            r.inst == inst,
            r.sources@.len() == 0,
    {
        PhiOp { intersect, sink, inst, sources: Vec::new() }
    }

    pub fn add_source(&mut self, src: Operand)
        ensures
            final(self).sources@ == old(self).sources@.push(src),
            final(self).sink == old(self).sink,
            final(self).inst == old(self).inst,
            final(self).intersect == old(self).intersect,
    {
        self.sources.push(src);
    }

    pub fn eval(&self, rs: &Vec<Range>) -> (r: Range)
        ensures
            r == phi_range(self.sources@, rs@),
    {
        let mut acc = Range { rtype: RangeType::Unknown, lower: 0, upper: 0 };
        let mut k: usize = 0;
        while k < self.sources.len()
            invariant
                k <= self.sources@.len(),
                acc == phi_range(self.sources@.subrange(0, k as int), rs@),
            decreases self.sources@.len() - k,
        {
            let ghost pre = self.sources@.subrange(0, k + 1);
            assert(pre.last() == self.sources@[k as int]);
            assert(pre.drop_last() =~= self.sources@.subrange(0, k as int));
            let a = operand_range_exec(&self.sources[k], rs);
            acc = acc.union(&a);
            k += 1;
        }
        assert(self.sources@.subrange(0, k as int) =~= self.sources@);
        acc
    }
}


/// The arithmetic that a binary opcode performs; comparisons perform none.
pub open spec fn arith_of(op: BinOp) -> Option<ArithOp> {
    match op {
        BinOp::Add | BinOp::AddWithOverflow | BinOp::AddUnchecked => Some(ArithOp::Add),
        BinOp::Sub | BinOp::SubWithOverflow | BinOp::SubUnchecked => Some(ArithOp::Sub),
        BinOp::Mul | BinOp::MulWithOverflow | BinOp::MulUnchecked => Some(ArithOp::Mul),
        BinOp::Div => Some(ArithOp::Div),
        BinOp::Rem => Some(ArithOp::Rem),
        _ => None,
    }
}

fn arith_of_exec(op: BinOp) -> (r: Option<ArithOp>)
    ensures
        r == arith_of(op),
{
    match op {
        BinOp::Add | BinOp::AddWithOverflow | BinOp::AddUnchecked => Some(ArithOp::Add),
        BinOp::Sub | BinOp::SubWithOverflow | BinOp::SubUnchecked => Some(ArithOp::Sub),
        BinOp::Mul | BinOp::MulWithOverflow | BinOp::MulUnchecked => Some(ArithOp::Mul),
        BinOp::Div => Some(ArithOp::Div),
        BinOp::Rem => Some(ArithOp::Rem),
        _ => None,
    }
}

/// Statements that become an operation: copies, unary and arithmetic binary
/// operations, phis and sigmas of a variable.
pub open spec fn produces_op(rv: Rvalue) -> bool {
    match rv {
        Rvalue::Use(_) => true,
        Rvalue::UnaryOp(_, _) => true,
        Rvalue::BinaryOp(op, _, _) => arith_of(op) is Some,
        Rvalue::Phi(_) => true,
        Rvalue::Essa(o) => o is Var,
    }
}

pub open spec fn full_interval() -> BasicInterval {
    BasicInterval { range: spec_full() }
}

/// The refinement that a sigma of `x` at the head of block `b` carries.
pub open spec fn sigma_constraint(maps: Seq<ValueBranchMap>, x: usize, b: usize) -> IntervalType {
    match branch_constraint_of(maps, x, b) {
        Some(c) => c,
        None => IntervalType::Basic(full_interval()),
    }
}

/// `op` is the operation that statement `s` of block `b` becomes.
pub open spec fn op_for_stmt(body: Body, maps: Seq<ValueBranchMap>, b: int, s: int, op: BasicOpKind) -> bool {
    let st = body.blocks@[b].statements@[s];
    let loc = Location { block: b as usize, statement: s as usize };
    match st.rvalue {
        Rvalue::Use(o) => op == BasicOpKind::Use(
            UseOp { intersect: full_interval(), sink: st.dest, inst: loc, source: o },
        ),
        Rvalue::UnaryOp(k, o) => op == BasicOpKind::Unary(
            UnaryOp { intersect: full_interval(), sink: st.dest, inst: loc, source: o, opcode: k },
        ),
        Rvalue::BinaryOp(bop, x, y) => arith_of(bop) is Some && op == BasicOpKind::Binary(
            BinaryOp {
                intersect: full_interval(),
                sink: st.dest,
                inst: loc,
                source1: x,
                source2: y,
                opcode: arith_of(bop)->Some_0,
            },
        ),
        Rvalue::Phi(args) => op is Phi && op->Phi_0.sink == st.dest && op->Phi_0.inst == loc
            && op->Phi_0.intersect == full_interval() && op->Phi_0.sources@ == args@.map_values(
            |a: PhiArg| a.value,
        ),
        Rvalue::Essa(o) => o is Var && op == BasicOpKind::Essa(
            EssaOp {
                intersect: sigma_constraint(maps, o->Var_0, b as usize),
                sink: st.dest,
                inst: loc,
                source: o->Var_0,
                unresolved: true,
            },
        ),
    }
}

pub open spec fn loc_lt(a: Location, b: Location) -> bool {
    a.block < b.block || (a.block == b.block && a.statement < b.statement)
}

/// The operations are exactly what the statements that
/// produce one become, in block and statement order.
pub open spec fn ops_of(body: Body, maps: Seq<ValueBranchMap>, ops: Seq<BasicOpKind>) -> bool {
    &&& forall|i: int|
        0 <= i < ops.len() ==> {
            let l = (#[trigger] ops[i]).inst();
            &&& l.block < body.n()
            &&& l.statement < body.blocks@[l.block as int].statements@.len()
            &&& op_for_stmt(body, maps, l.block as int, l.statement as int, ops[i])
        }
    &&& forall|i: int, j: int| 0 <= i < j < ops.len() ==> loc_lt(ops[i].inst(), ops[j].inst())
    &&& forall|b: int, s: int|
        0 <= b < body.n() && 0 <= s < body.blocks@[b].statements@.len() && produces_op(
            #[trigger] body.blocks@[b].statements@[s].rvalue,
        ) ==> exists|i: int|
            0 <= i < ops.len() && (#[trigger] ops[i]).inst() == (Location {
                block: b as usize,
                statement: s as usize,
            })
}

/// The range-analysis record of one SSA name.
#[derive(Clone, Copy, Debug)]
pub struct VarNode {
    pub v: usize,
    pub interval: Range,
    /// '?' none yet, '+' growing up, '-' growing down, '0' stable.
    pub abstract_state: char,
}

impl VarNode {
    /// A node for name `v`, its range not computed yet.
    pub fn new(v: usize) -> (r: VarNode)
        ensures
            r.v == v,
            r.interval.rtype == RangeType::Unknown,
            r.abstract_state == '?',
    {
        VarNode { v, interval: Range::unknown(), abstract_state: '?' }
    }

    /// Starts the node over: an outside value may be anything, any other is
    /// not computed yet.
    pub fn init(&mut self, outside: bool)
        ensures
            final(self).v == old(self).v,
            outside ==> final(self).interval == spec_full(),
            !outside ==> final(self).interval.rtype == RangeType::Unknown,
            final(self).abstract_state == '?',
    {
        self.interval = if outside {
            Range::full()
        } else {
            Range::unknown()
        };
        self.abstract_state = '?';
    }

    pub fn get_range(&self) -> (r: Range)
        ensures
            r == self.interval,
    {
        self.interval
    }

    pub fn get_value(&self) -> (r: usize)
        ensures
            r == self.v,
    {
        self.v
    }

    pub fn set_range(&mut self, new_interval: Range)
        ensures
            *final(self) == (VarNode { interval: new_interval, ..*old(self) }),
    {
        self.interval = new_interval;
    }

    pub fn get_abstract_state(&self) -> (r: char)
        ensures
            r == self.abstract_state,
    {
        self.abstract_state
    }

    pub fn store_abstract_state(&mut self, state: char)
        ensures
            *final(self) == (VarNode { abstract_state: state, ..*old(self) }),
    {
        self.abstract_state = state;
    }
}

fn stmt_op(body: &Body, maps: &Vec<ValueBranchMap>, b: usize, s: usize) -> (r: Option<BasicOpKind>)
    requires
        b < body.n(),
        s < body.blocks@[b as int].statements@.len(),
    ensures
        r is Some <==> produces_op(body.blocks@[b as int].statements@[s as int].rvalue),
        r matches Some(op) ==> op_for_stmt(*body, maps@, b as int, s as int, op) && op.inst() == (
        Location { block: b, statement: s }),
{
    let st = &body.blocks[b].statements[s];
    let loc = Location { block: b, statement: s };
    let bi = BasicInterval::new(Range::full());
    match &st.rvalue {
        Rvalue::Use(o) => Some(BasicOpKind::Use(UseOp::new(bi, st.dest, loc, *o))),
        Rvalue::UnaryOp(k, o) => Some(BasicOpKind::Unary(UnaryOp::new(bi, st.dest, loc, *o, *k))),
        Rvalue::BinaryOp(bop, x, y) => match arith_of_exec(*bop) {
            Some(a) => Some(BasicOpKind::Binary(BinaryOp::new(bi, st.dest, loc, *x, *y, a))),
            None => None,
        },
        Rvalue::Phi(args) => {
            let mut phi = PhiOp::new(bi, st.dest, loc);
            let mut k: usize = 0;
            while k < args.len()
                invariant
                    k <= args@.len(),
                    phi.sink == st.dest,
                    phi.inst == loc,
                    phi.intersect == bi,
                    phi.sources@ == args@.subrange(0, k as int).map_values(|a: PhiArg| a.value),
                decreases args@.len() - k,
            {
                phi.add_source(args[k].value);
                k += 1;
                assert(phi.sources@ =~= args@.subrange(0, k as int).map_values(|a: PhiArg| a.value));
            }
            assert(args@.subrange(0, k as int) =~= args@);
            Some(BasicOpKind::Phi(phi))
        },
        Rvalue::Essa(o) => match o {
            Operand::Var(x) => {
                let c = match get_branch_constraint(maps, *x, b) {
                    Some(c) => c,
                    None => IntervalType::Basic(bi),
                };
                Some(BasicOpKind::Essa(EssaOp::new(c, st.dest, loc, *x)))
            },
            Operand::Const(_) => None,
        },
    }
}

/// The operations of an e-SSA body, in block and statement order.
pub fn build_operations(body: &Body, maps: &Vec<ValueBranchMap>) -> (r: Vec<BasicOpKind>)
    ensures
        ops_of(*body, maps@, r@),
{
    let mut ops: Vec<BasicOpKind> = Vec::new();
    let mut b: usize = 0;
    while b < body.blocks.len()
        invariant
            b <= body.n(),
            forall|i: int|
                0 <= i < ops@.len() ==> {
                    let l = (#[trigger] ops@[i]).inst();
                    &&& l.block < b
                    &&& l.statement < body.blocks@[l.block as int].statements@.len()
                    &&& op_for_stmt(*body, maps@, l.block as int, l.statement as int, ops@[i])
                },
            forall|i: int, j: int| 0 <= i < j < ops@.len() ==> loc_lt(ops@[i].inst(), ops@[j].inst()),
            forall|c: int, s: int|
                0 <= c < b && 0 <= s < body.blocks@[c].statements@.len() && produces_op(
                    #[trigger] body.blocks@[c].statements@[s].rvalue,
                ) ==> exists|i: int|
                    0 <= i < ops@.len() && (#[trigger] ops@[i]).inst() == (Location {
                        block: c as usize,
                        statement: s as usize,
                    }),
        decreases body.n() - b,
    {
        let mut s: usize = 0;
        while s < body.blocks[b].statements.len()
            invariant
                b < body.n(),
                s <= body.blocks@[b as int].statements@.len(),
                forall|i: int|
                    0 <= i < ops@.len() ==> {
                        let l = (#[trigger] ops@[i]).inst();
                        &&& loc_lt(l, Location { block: b, statement: s })
                        &&& l.block <= b
                        &&& l.statement < body.blocks@[l.block as int].statements@.len()
                        &&& op_for_stmt(*body, maps@, l.block as int, l.statement as int, ops@[i])
                    },
                forall|i: int, j: int| 0 <= i < j < ops@.len() ==> loc_lt(ops@[i].inst(), ops@[j].inst()),
                forall|c: int, t: int|
                    0 <= c <= b && 0 <= t < body.blocks@[c].statements@.len() && (c < b || t < s) && produces_op(
                        #[trigger] body.blocks@[c].statements@[t].rvalue,
                    ) ==> exists|i: int|
                        0 <= i < ops@.len() && (#[trigger] ops@[i]).inst() == (Location {
                            block: c as usize,
                            statement: t as usize,
                        }),
            decreases body.blocks@[b as int].statements@.len() - s,
        {
            if let Some(op) = stmt_op(body, maps, b, s) {
                let ghost o0 = ops@;
                ops.push(op);
                proof {
                    assert forall|c: int, t: int|
                        0 <= c <= b && 0 <= t < body.blocks@[c].statements@.len() && (c < b || t < s + 1) && produces_op(
                            #[trigger] body.blocks@[c].statements@[t].rvalue,
                        ) implies exists|i: int|
                            0 <= i < ops@.len() && (#[trigger] ops@[i]).inst() == (Location {
                                block: c as usize,
                                statement: t as usize,
                            }) by {
                        if c == b && t == s {
                            assert(ops@[ops@.len() - 1].inst() == (Location { block: c as usize, statement: t as usize }));
                        } else {
                            let i = choose|i: int|
                                0 <= i < o0.len() && (#[trigger] o0[i]).inst() == (Location {
                                    block: c as usize,
                                    statement: t as usize,
                                });
                            assert(ops@[i] == o0[i]);
                        }
                    }
                }
            }
            s += 1;
        }
        b += 1;
    }
    ops
}

} // verus!
