use vstd::prelude::*;
use crate::cfg::{Body, Statement, Rvalue, Operand, Terminator, BasicBlock, BinOp};
use crate::range::{Range, RangeType, spec_full, DOMAIN_MIN, DOMAIN_MAX};

verus! {

/// A concrete interval constraint.
#[derive(Clone, Copy, Debug, PartialEq, Eq, Structural)]
pub struct BasicInterval {
    pub range: Range,
}

/// A bound relative to another SSA name (`symbound`), on the true or the
/// false side of a branch (`predicate`), with a base range.
#[derive(Clone, Copy, Debug, PartialEq, Eq, Structural)]
pub struct SymbInterval {
    pub range: Range,
    pub symbound: usize,
    pub predicate: bool,
}

#[derive(Clone, Copy, Debug, PartialEq, Eq, Structural)]
pub enum IntervalType {
    Basic(BasicInterval),
    Symb(SymbInterval),
}

/// The constraints that a two-way branch puts on variable `v` on each side.
#[derive(Clone, Copy, Debug, PartialEq, Eq, Structural)]
pub struct ValueBranchMap {
    pub v: usize,
    pub bb_true: usize,
    pub bb_false: usize,
    pub itv_t: IntervalType,
    pub itv_f: IntervalType,
}

impl BasicInterval {
    pub fn new(range: Range) -> (r: BasicInterval)
        ensures
            r.range == range,
    {
        BasicInterval { range }
    }

    pub fn get_range(&self) -> (r: Range)
        ensures
            r == self.range,
    {
        self.range
    }

    /// Replaces the range; one whose bounds cross becomes empty.
    pub fn set_range(&mut self, new_range: Range)
        ensures
            new_range.lower > new_range.upper ==> final(self).range == (Range {
                rtype: RangeType::Empty,
                ..new_range
            }),
            new_range.lower <= new_range.upper ==> final(self).range == new_range,
    {
        self.range = new_range;
        if self.range.get_lower() > self.range.get_upper() {
            self.range.set_empty();
        }
    }
}

impl SymbInterval {
    pub fn new(range: Range, symbound: usize, predicate: bool) -> (r: SymbInterval)
        ensures
            r == (SymbInterval { range, symbound, predicate }),
    {
        SymbInterval { range, symbound, predicate }
    }

    pub fn get_operation(&self) -> (r: bool)
        ensures
            r == self.predicate,
    {
        self.predicate
    }

    pub fn get_bound(&self) -> (r: usize)
        ensures
            r == self.symbound,
    {
        self.symbound
    }

    pub fn get_range(&self) -> (r: Range)
        ensures
            r == self.range,
    {
        self.range
    }

    pub fn set_range(&mut self, new_range: Range)
        ensures
            *final(self) == (SymbInterval { range: new_range, ..*old(self) }),
    {
        self.range = new_range;
    }
}

impl IntervalType {
    /// The range of the constraint (for a symbolic one, its base range).
    pub open spec fn spec_range(self) -> Range {
        match self {
            IntervalType::Basic(b) => b.range,
            IntervalType::Symb(s) => s.range,
        }
    }

    pub fn get_range(&self) -> (r: Range)
        ensures
            r == self.spec_range(),
    {
        match self {
            IntervalType::Basic(b) => b.range,
            IntervalType::Symb(s) => s.range,
        }
    }
}

impl ValueBranchMap {
    pub fn new(v: usize, bb_true: usize, bb_false: usize, itv_t: IntervalType, itv_f: IntervalType) -> (r: ValueBranchMap)
        ensures
            r == (ValueBranchMap { v, bb_true, bb_false, itv_t, itv_f }),
    {
        ValueBranchMap { v, bb_true, bb_false, itv_t, itv_f }
    }

    pub fn get_bb_false(&self) -> (r: usize)
        ensures
            r == self.bb_false,
    {
        self.bb_false
    }

    pub fn get_bb_true(&self) -> (r: usize)
        ensures
            r == self.bb_true,
    {
        self.bb_true
    }

    pub fn get_itv_t(&self) -> (r: IntervalType)
        ensures
            r == self.itv_t,
    {
        self.itv_t
    }

    pub fn get_itv_f(&self) -> (r: IntervalType)
        ensures
            r == self.itv_f,
    {
        self.itv_f
    }

    pub fn get_v(&self) -> (r: usize)
        ensures
            r == self.v,
    {
        self.v
    }
}

/// The comparisons whose branches refine a range.
pub open spec fn is_refining_comparison(op: BinOp) -> bool {
    op == BinOp::Lt || op == BinOp::Le || op == BinOp::Gt || op == BinOp::Ge || op == BinOp::Eq
}

/// The half-line that a branch on `lhs OP rhs` implies for the variable side,
/// split at the constant. The five refining comparisons are treated alike
/// (strictness and direction are not told apart); any other comparison gives
/// an empty range.
pub open spec fn spec_apply_comparison(constant: i64, op: BinOp, is_true_branch: bool, const_in_left: bool) -> Range {
    if is_refining_comparison(op) {
        if is_true_branch != const_in_left {
            Range { rtype: RangeType::Regular, lower: DOMAIN_MIN, upper: constant }
        } else {
            Range { rtype: RangeType::Regular, lower: constant, upper: DOMAIN_MAX }
        }
    } else {
        Range { rtype: RangeType::Empty, lower: constant, upper: constant }
    }
}

fn is_refining(op: BinOp) -> (r: bool)
    ensures
        r == is_refining_comparison(op),
{
    matches!(op, BinOp::Lt) || matches!(op, BinOp::Le) || matches!(op, BinOp::Gt) || matches!(op, BinOp::Ge) || matches!(op, BinOp::Eq)
}

/// The range that taking one side of a branch gives the variable compared with `constant`.
pub fn apply_comparison(constant: i64, cmp_op: BinOp, is_true_branch: bool, const_in_left: bool) -> (r: Range)
    ensures
        r == spec_apply_comparison(constant, cmp_op, is_true_branch, const_in_left),
{
    if is_refining(cmp_op) {
        if is_true_branch ^ const_in_left {
            Range::new(DOMAIN_MIN, constant, RangeType::Regular)
        } else {
            Range::new(constant, DOMAIN_MAX, RangeType::Regular)
        }
    } else {
        Range::new(constant, constant, RangeType::Empty)
    }
}

/// The first statement that defines `place` by a binary operation: its operands and opcode.
pub open spec fn find_compare(stmts: Seq<Statement>, place: usize) -> Option<(Operand, Operand, BinOp)>
    decreases stmts.len(),
{
    if stmts.len() == 0 {
        None
    } else if stmts[0].dest == place && stmts[0].rvalue is BinaryOp {
        Some((stmts[0].rvalue->BinaryOp_1, stmts[0].rvalue->BinaryOp_2, stmts[0].rvalue->BinaryOp_0))
    } else {
        find_compare(stmts.drop_first(), place)
    }
}

/// The operand that the last plain copy into `x` reads.
pub open spec fn copy_source(stmts: Seq<Statement>, x: usize) -> Option<Operand>
    decreases stmts.len(),
{
    if stmts.len() == 0 {
        None
    } else if stmts.last().dest == x && stmts.last().rvalue is Use {
        Some(stmts.last().rvalue->Use_0)
    } else {
        copy_source(stmts.drop_last(), x)
    }
}

/// An operand seen through a copy in the same block.
pub open spec fn look_through(stmts: Seq<Statement>, o: Operand) -> Operand {
    match o {
        Operand::Var(x) => match copy_source(stmts, x) {
            Some(s) => s,
            None => o,
        },
        Operand::Const(_) => o,
    }
}

/// The comparison that decides a branch on `place` in a block with statements `stmts`.
pub open spec fn condition(stmts: Seq<Statement>, place: usize) -> Option<(Operand, Operand, BinOp)> {
    match find_compare(stmts, place) {
        Some((a, b, op)) => Some((look_through(stmts, a), look_through(stmts, b), op)),
        None => None,
    }
}

fn find_compare_exec(stmts: &Vec<Statement>, place: usize) -> (r: Option<(Operand, Operand, BinOp)>)
    ensures
        r == find_compare(stmts@, place),
{
    let mut i: usize = 0;
    assert(stmts@.subrange(0, stmts@.len() as int) =~= stmts@);
    while i < stmts.len()
        invariant
            i <= stmts@.len(),
            find_compare(stmts@, place) == find_compare(stmts@.subrange(i as int, stmts@.len() as int), place),
        decreases stmts@.len() - i,
    {
        let ghost rest = stmts@.subrange(i as int, stmts@.len() as int);
        assert(rest[0] == stmts@[i as int]);
        assert(rest.drop_first() =~= stmts@.subrange(i + 1, stmts@.len() as int));
        if stmts[i].dest == place {
            if let Rvalue::BinaryOp(op, a, b) = &stmts[i].rvalue {
                return Some((*a, *b, *op));
            }
        }
        i += 1;
    }
    assert(stmts@.subrange(i as int, stmts@.len() as int).len() == 0);
    None
}

fn copy_source_exec(stmts: &Vec<Statement>, x: usize) -> (r: Option<Operand>)
    ensures
        r == copy_source(stmts@, x),
{
    let mut found: Option<Operand> = None;
    let mut i: usize = 0;
    while i < stmts.len()
        invariant
            i <= stmts@.len(),
            found == copy_source(stmts@.subrange(0, i as int), x),
        decreases stmts@.len() - i,
    {
        let ghost pre = stmts@.subrange(0, i + 1);
        assert(pre.last() == stmts@[i as int]);
        assert(pre.drop_last() =~= stmts@.subrange(0, i as int));
        if stmts[i].dest == x {
            if let Rvalue::Use(o) = &stmts[i].rvalue {
                found = Some(*o);
            }
        }
        i += 1;
    }
    assert(stmts@.subrange(0, i as int) =~= stmts@);
    found
}

fn look_through_exec(stmts: &Vec<Statement>, o: Operand) -> (r: Operand)
    ensures
        r == look_through(stmts@, o),
{
    match o {
        Operand::Var(x) => match copy_source_exec(stmts, x) {
            Some(s) => s,
            None => o,
        },
        Operand::Const(_) => o,
    }
}

/// The comparison `(lhs, rhs, op)` that a branch on `place` tests, looking
/// through copies made in the same block.
pub fn extract_condition(stmts: &Vec<Statement>, place: usize) -> (r: Option<(Operand, Operand, BinOp)>)
    ensures
        r == condition(stmts@, place),
{
    match find_compare_exec(stmts, place) {
        Some((a, b, op)) => Some((look_through_exec(stmts, a), look_through_exec(stmts, b), op)),
        None => None,
    }
}

/// A two-way branch on a variable: value 0 goes to the false side, any other
/// to the true side. Gives (variable, true block, false block).
pub open spec fn two_way(t: Terminator) -> Option<(usize, usize, usize)> {
    match t {
        Terminator::SwitchInt { discr, targets, otherwise } => if discr is Var && targets@.len() == 1
            && targets@[0].0 == 0 {
            Some((discr->Var_0, otherwise, targets@[0].1))
        } else {
            None
        },
        _ => None,
    }
}

/// The branch constraints that block `b` produces.
pub open spec fn branch_entries(body: Body, b: int) -> Seq<ValueBranchMap> {
    let blk = body.blocks@[b];
    match two_way(blk.terminator) {
        None => seq![],
        Some((c, t, f)) => match condition(blk.statements@, c) {
            None => seq![],
            Some((x, y, op)) => if !is_refining_comparison(op) {
                seq![]
            } else {
                match (x, y) {
                    (Operand::Const(k), Operand::Var(v)) => seq![
                        ValueBranchMap {
                            v,
                            bb_true: t,
                            bb_false: f,
                            itv_t: IntervalType::Basic(
                                BasicInterval { range: spec_apply_comparison(k, op, true, true) },
                            ),
                            itv_f: IntervalType::Basic(
                                BasicInterval { range: spec_apply_comparison(k, op, false, true) },
                            ),
                        },
                    ],
                    (Operand::Var(v), Operand::Const(k)) => seq![
                        ValueBranchMap {
                            v,
                            bb_true: t,
                            bb_false: f,
                            itv_t: IntervalType::Basic(
                                BasicInterval { range: spec_apply_comparison(k, op, true, false) },
                            ),
                            itv_f: IntervalType::Basic(
                                BasicInterval { range: spec_apply_comparison(k, op, false, false) },
                            ),
                        },
                    ],
                    (Operand::Var(v1), Operand::Var(v2)) => seq![
                        ValueBranchMap {
                            v: v1,
                            bb_true: t,
                            bb_false: f,
                            itv_t: IntervalType::Symb(
                                SymbInterval { range: spec_full(), symbound: v2, predicate: true },
                            ),
                            itv_f: IntervalType::Symb(
                                SymbInterval { range: spec_full(), symbound: v2, predicate: false },
                            ),
                        },
                        ValueBranchMap {
                            v: v2,
                            bb_true: t,
                            bb_false: f,
                            itv_t: IntervalType::Symb(
                                SymbInterval { range: spec_full(), symbound: v1, predicate: true },
                            ),
                            itv_f: IntervalType::Symb(
                                SymbInterval { range: spec_full(), symbound: v1, predicate: false },
                            ),
                        },
                    ],
                    _ => seq![],
                }
            },
        },
    }
}

/// The branch constraints of blocks `0..b`, in block order.
pub open spec fn entries_upto(body: Body, b: int) -> Seq<ValueBranchMap>
    decreases b,
{
    if b <= 0 {
        seq![]
    } else {
        entries_upto(body, b - 1) + branch_entries(body, b - 1)
    }
}

fn two_way_exec(t: &Terminator) -> (r: Option<(usize, usize, usize)>)
    ensures
        r == two_way(*t),
{
    match t {
        Terminator::SwitchInt { discr, targets, otherwise } => {
            if let Operand::Var(c) = discr {
                if targets.len() == 1 && targets[0].0 == 0 {
                    return Some((*c, *otherwise, targets[0].1));
                }
            }
            None
        },
        _ => None,
    }
}

/// Appends the branch constraints of block `b` to `out`.
fn block_branch_map(body: &Body, b: usize, out: &mut Vec<ValueBranchMap>)
    requires
        b < body.n(),
    ensures
        final(out)@ == old(out)@ + branch_entries(*body, b as int),
{
    let blk = &body.blocks[b];
    let ghost e = branch_entries(*body, b as int);
    match two_way_exec(&blk.terminator) {
        None => {
            assert(out@ =~= out@ + e);
        },
        Some((c, t, f)) => match extract_condition(&blk.statements, c) {
            None => {
                assert(out@ =~= out@ + e);
            },
            Some((x, y, op)) => {
                if !is_refining(op) {
                    assert(out@ =~= out@ + e);
                    return;
                }
                match (x, y) {
                    (Operand::Const(k), Operand::Var(v)) => {
                        let it = IntervalType::Basic(BasicInterval::new(apply_comparison(k, op, true, true)));
                        let iff = IntervalType::Basic(BasicInterval::new(apply_comparison(k, op, false, true)));
                        out.push(ValueBranchMap::new(v, t, f, it, iff));
                        assert(out@ =~= old(out)@ + e);
                    },
                    (Operand::Var(v), Operand::Const(k)) => {
                        let it = IntervalType::Basic(BasicInterval::new(apply_comparison(k, op, true, false)));
                        let iff = IntervalType::Basic(BasicInterval::new(apply_comparison(k, op, false, false)));
                        out.push(ValueBranchMap::new(v, t, f, it, iff));
                        assert(out@ =~= old(out)@ + e);
                    },
                    (Operand::Var(v1), Operand::Var(v2)) => {
                        let cr = Range::full();
                        out.push(ValueBranchMap::new(
                            v1,
                            t,
                            f,
                            IntervalType::Symb(SymbInterval::new(cr, v2, true)),
                            IntervalType::Symb(SymbInterval::new(cr, v2, false)),
                        ));
                        out.push(ValueBranchMap::new(
                            v2,
                            t,
                            f,
                            IntervalType::Symb(SymbInterval::new(cr, v1, true)),
                            IntervalType::Symb(SymbInterval::new(cr, v1, false)),
                        ));
                        assert(out@ =~= old(out)@ + e);
                    },
                    _ => {
                        assert(out@ =~= out@ + e);
                    },
                }
            },
        },
    }
}

/// The branch constraints of every two-way branch on a comparison, in block order.
pub fn build_value_branch_map(body: &Body) -> (r: Vec<ValueBranchMap>)
    ensures
        r@ == entries_upto(*body, body.n()),
{
    let mut r: Vec<ValueBranchMap> = Vec::new();
    let mut b: usize = 0;
    while b < body.blocks.len()
        invariant
            b <= body.n(),
            r@ == entries_upto(*body, b as int),
        decreases body.n() - b,
    {
        block_branch_map(body, b, &mut r);
        b += 1;
    }
    r
}

/// The constraint recorded for `variable` on entering `block`: the first
/// branch constraint on `variable` whose true or false side is `block`.
pub open spec fn branch_constraint_of(maps: Seq<ValueBranchMap>, variable: usize, block: usize) -> Option<IntervalType>
    decreases maps.len(),
{
    if maps.len() == 0 {
        None
    } else if maps[0].v == variable && maps[0].bb_true == block {
        Some(maps[0].itv_t)
    } else if maps[0].v == variable && maps[0].bb_false == block {
        Some(maps[0].itv_f)
    } else {
        branch_constraint_of(maps.drop_first(), variable, block)
    }
}

pub fn get_branch_constraint(maps: &Vec<ValueBranchMap>, variable: usize, block: usize) -> (r: Option<IntervalType>)
    ensures
        r == branch_constraint_of(maps@, variable, block),
{
    let mut i: usize = 0;
    assert(maps@.subrange(0, maps@.len() as int) =~= maps@);
    while i < maps.len()
        invariant
            i <= maps@.len(),
            branch_constraint_of(maps@, variable, block) == branch_constraint_of(maps@.subrange(i as int, maps@.len() as int), variable, block),
        decreases maps@.len() - i,
    {
        let ghost rest = maps@.subrange(i as int, maps@.len() as int);
        assert(rest[0] == maps@[i as int]);
        assert(rest.drop_first() =~= maps@.subrange(i + 1, maps@.len() as int));
        let m = &maps[i];
        if m.v == variable && m.bb_true == block {
            return Some(m.itv_t);
        }
        if m.v == variable && m.bb_false == block {
            return Some(m.itv_f);
        }
        i += 1;
    }
    assert(maps@.subrange(i as int, maps@.len() as int).len() == 0);
    None
}


/// The variables that get a sigma at the head of block `b`: one for each
/// branch constraint with a side that enters `b`, in the order of `maps`.
pub open spec fn sigma_sources(maps: Seq<ValueBranchMap>, b: usize) -> Seq<usize>
    decreases maps.len(),
{
    if maps.len() == 0 {
        seq![]
    } else {
        let m = maps.last();
        sigma_sources(maps.drop_last(), b) + if m.bb_true == b || m.bb_false == b {
            seq![m.v]
        } else {
            seq![]
        }
    }
}

/// How many sigmas blocks `0..b` get.
pub open spec fn sigma_total(maps: Seq<ValueBranchMap>, b: int) -> int
    decreases b,
{
    if b <= 0 {
        0
    } else {
        sigma_total(maps, b - 1) + sigma_sources(maps, (b - 1) as usize).len()
    }
}

pub proof fn lemma_sigma_total_mono(maps: Seq<ValueBranchMap>, a: int, b: int)
    requires
        0 <= a <= b,
    ensures
        sigma_total(maps, a) <= sigma_total(maps, b),
    decreases b - a,
{
    if a < b {
        lemma_sigma_total_mono(maps, a, b - 1);
    }
}

fn sigma_sources_exec(maps: &Vec<ValueBranchMap>, b: usize) -> (r: Vec<usize>)
    ensures
        r@ == sigma_sources(maps@, b),
{
    let mut r: Vec<usize> = Vec::new();
    let mut i: usize = 0;
    while i < maps.len()
        invariant
            i <= maps@.len(),
            r@ == sigma_sources(maps@.subrange(0, i as int), b),
        decreases maps@.len() - i,
    {
        let ghost pre = maps@.subrange(0, i + 1);
        assert(pre.last() == maps@[i as int]);
        assert(pre.drop_last() =~= maps@.subrange(0, i as int));
        if maps[i].bb_true == b || maps[i].bb_false == b {
            r.push(maps[i].v);
        }
        i += 1;
        assert(r@ =~= sigma_sources(pre, b));
    }
    assert(maps@.subrange(0, i as int) =~= maps@);
    r
}

/// Block `b` of the e-SSA form: a sigma for each of `sigma_sources(maps, b)`,
/// named `base, base + 1, ...`, then the statements of `ib`.
pub open spec fn block_expanded(maps: Seq<ValueBranchMap>, b: usize, base: int, ib: BasicBlock, ob: BasicBlock) -> bool {
    let src = sigma_sources(maps, b);
    &&& ob.statements@.len() == src.len() + ib.statements@.len()
    &&& forall|j: int|
        0 <= j < src.len() ==> (#[trigger] ob.statements@[j]).dest == base + j
            && ob.statements@[j].rvalue == Rvalue::Essa(Operand::Var(src[j]))
    &&& ob.statements@.subrange(src.len() as int, ob.statements@.len() as int) == ib.statements@
    &&& ob.terminator == ib.terminator
}

pub open spec fn expanded_from(out: Body, input: Body, maps: Seq<ValueBranchMap>) -> bool {
    &&& out.n() == input.n()
    &&& out.num_vars == input.num_vars + sigma_total(maps, input.n())
    &&& forall|b: int|
        0 <= b < input.n() ==> block_expanded(
            maps,
            b as usize,
            input.num_vars + sigma_total(maps, b),
            input.blocks@[b],
            #[trigger] out.blocks@[b],
        )
}

/// Inserts, at the head of each block that a constrained branch enters, a
/// sigma copy of each constrained variable, each with a fresh name.
pub fn insert_sigmas(body: Body, maps: &Vec<ValueBranchMap>) -> (r: Body)
    requires
        body.num_vars + sigma_total(maps@, body.n()) <= usize::MAX,
    ensures
        expanded_from(r, body, maps@),
{
    let ghost input = body;
    let n = body.blocks.len();
    let nv = body.num_vars;
    let mut rest = body.blocks;
    let mut out: Vec<BasicBlock> = Vec::new();
    let mut fresh: usize = nv;
    let mut b: usize = 0;
    while b < n
        invariant
            n == input.n(),
            nv == input.num_vars,
            nv + sigma_total(maps@, n as int) <= usize::MAX,
            b <= n,
            rest@ == input.blocks@.subrange(b as int, n as int),
            out@.len() == b,
            fresh == nv + sigma_total(maps@, b as int),
            forall|c: int|
                0 <= c < b ==> block_expanded(
                    maps@,
                    c as usize,
                    nv + sigma_total(maps@, c),
                    input.blocks@[c],
                    #[trigger] out@[c],
                ),
        decreases n - b,
    {
        proof {
            lemma_sigma_total_mono(maps@, b as int + 1, n as int);
        }
        let ib = rest.remove(0);
        assert(ib == input.blocks@[b as int]);
        let src = sigma_sources_exec(maps, b);
        let base = fresh;
        let mut st: Vec<Statement> = Vec::new();
        let mut j: usize = 0;
        while j < src.len()
            invariant
                j <= src@.len(),
                src@ == sigma_sources(maps@, b),
                base + src@.len() <= usize::MAX,
                st@.len() == j,
                forall|i: int|
                    0 <= i < j ==> (#[trigger] st@[i]).dest == base + i && st@[i].rvalue
                        == Rvalue::Essa(Operand::Var(src@[i])),
            decreases src@.len() - j,
        {
            st.push(Statement { dest: base + j, rvalue: Rvalue::Essa(Operand::Var(src[j])) });
            j += 1;
        }
        fresh = base + src.len();
        let BasicBlock { statements, terminator } = ib;
        let mut tail = statements;
        let ghost st0 = st@;
        let ghost tail0 = tail@;
        st.append(&mut tail);
        proof {
            assert(st@.subrange(st0.len() as int, st@.len() as int) =~= tail0);
        }
        out.push(BasicBlock { statements: st, terminator });
        proof {
            assert(rest@ =~= input.blocks@.subrange(b + 1, n as int));
            assert(block_expanded(maps@, b, nv + sigma_total(maps@, b as int), input.blocks@[b as int], out@[b as int]));
        }
        b += 1;
    }
    Body { blocks: out, num_vars: fresh }
}


/// Sigma insertion keeps every assigned name below the name count.
pub proof fn lemma_expanded_dests(out: Body, input: Body, maps: Seq<ValueBranchMap>)
    requires
        expanded_from(out, input, maps),
        forall|b: int, s: int|
            0 <= b < input.n() && 0 <= s < input.blocks@[b].statements@.len() ==> (
            #[trigger] input.blocks@[b].statements@[s]).dest < input.num_vars,
    ensures
        forall|b: int, s: int|
            0 <= b < out.n() && 0 <= s < out.blocks@[b].statements@.len() ==> (
            #[trigger] out.blocks@[b].statements@[s]).dest < out.num_vars,
{
    assert forall|b: int, s: int|
        0 <= b < out.n() && 0 <= s < out.blocks@[b].statements@.len() implies (
        #[trigger] out.blocks@[b].statements@[s]).dest < out.num_vars by {
        let ob = out.blocks@[b];
        let ib = input.blocks@[b];
        assert(block_expanded(maps, b as usize, input.num_vars + sigma_total(maps, b), ib, ob));
        let src = sigma_sources(maps, b as usize);
        lemma_sigma_total_mono(maps, b + 1, input.n());
        lemma_sigma_total_mono(maps, 0, input.n());
        assert(sigma_total(maps, b + 1) == sigma_total(maps, b) + src.len());
        if s < src.len() {
            assert(ob.statements@[s].dest == input.num_vars + sigma_total(maps, b) + s);
        } else {
            let t = ob.statements@.subrange(src.len() as int, ob.statements@.len() as int);
            assert(t[s - src.len()] == ob.statements@[s]);
            assert(ib.statements@[s - src.len()].dest < input.num_vars);
        }
    }
}


proof fn lemma_entries_len(body: Body, b: int)
    requires
        0 <= b,
    ensures
        entries_upto(body, b).len() <= 2 * b,
    decreases b,
{
    if b > 0 {
        lemma_entries_len(body, b - 1);
    }
}

proof fn lemma_sigma_sources_len(maps: Seq<ValueBranchMap>, x: usize)
    ensures
        sigma_sources(maps, x).len() <= maps.len(),
    decreases maps.len(),
{
    if maps.len() > 0 {
        lemma_sigma_sources_len(maps.drop_last(), x);
    }
}

proof fn lemma_sigma_total_bound(maps: Seq<ValueBranchMap>, b: int)
    requires
        0 <= b,
    ensures
        sigma_total(maps, b) <= b * maps.len(),
    decreases b,
{
    if b > 0 {
        lemma_sigma_total_bound(maps, b - 1);
        lemma_sigma_sources_len(maps, (b - 1) as usize);
        assert((b - 1) * maps.len() + maps.len() == b * maps.len()) by (nonlinear_arith);
    }
}

/// The sigmas of a body's branch constraints number at most twice the square
/// of its block count.
pub proof fn lemma_sigma_count(body: Body)
    ensures
        sigma_total(entries_upto(body, body.n()), body.n()) <= 2 * body.n() * body.n(),
{
    let n = body.n();
    let maps = entries_upto(body, n);
    lemma_entries_len(body, n);
    lemma_sigma_total_bound(maps, n);
    assert(n * maps.len() <= n * (2 * n)) by (nonlinear_arith)
        requires
            maps.len() <= 2 * n,
            0 <= n,
    ;
    assert(n * (2 * n) == 2 * n * n) by (nonlinear_arith);
}

} // verus!
