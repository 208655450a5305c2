use vstd::prelude::*;
use crate::range::UnaryKind;

verus! {

/// An operand: a variable (by index) or a constant of the domain.
#[derive(Clone, Copy, Debug, PartialEq, Eq, Structural)]
pub enum Operand {
    Var(usize),
    Const(i64),
}

/// Binary opcodes: arithmetic (plain, overflow-checked and unchecked) and comparisons.
#[derive(Clone, Copy, Debug, PartialEq, Eq, Structural)]
pub enum BinOp {
    Add,
    Sub,
    Mul,
    Div,
    Rem,
    AddWithOverflow,
    SubWithOverflow,
    MulWithOverflow,
    AddUnchecked,
    SubUnchecked,
    MulUnchecked,
    Lt,
    Le,
    Gt,
    Ge,
    Eq,
    Ne,
}

/// One operand of a phi node, with the predecessor block whose edge it belongs to.
#[derive(Clone, Copy, Debug, PartialEq, Eq, Structural)]
pub struct PhiArg {
    pub pred: usize,
    pub value: Operand,
}

/// The right-hand side of an assignment.
#[derive(Clone, Debug)]
pub enum Rvalue {
    Use(Operand),
    UnaryOp(UnaryKind, Operand),
    BinaryOp(BinOp, Operand, Operand),
    /// Marker for a phi node (placed by SSA construction).
    Phi(Vec<PhiArg>),
    /// Marker for a sigma (e-SSA) copy on a branch edge.
    Essa(Operand),
}

/// `dest := rvalue`.
#[derive(Clone, Debug)]
pub struct Statement {
    pub dest: usize,
    pub rvalue: Rvalue,
}

/// The last instruction of a block.
#[derive(Clone, Debug)]
pub enum Terminator {
    Goto { block: usize },
    /// Multi-way branch: `targets` lists (value, block); any other value goes to `otherwise`.
    SwitchInt { discr: Operand, targets: Vec<(i64, usize)>, otherwise: usize },
    Return,
    Call { destination: Option<usize>, target: Option<usize> },
    Unreachable,
}

#[derive(Clone, Debug)]
pub struct BasicBlock {
    pub statements: Vec<Statement>,
    pub terminator: Terminator,
}

/// A function body: blocks by index, block 0 the entry; variables `0..num_vars`.
#[derive(Clone, Debug)]
pub struct Body {
    pub blocks: Vec<BasicBlock>,
    pub num_vars: usize,
}

/// Malformed input.
#[derive(Clone, Copy, Debug, PartialEq, Eq, Structural)]
pub enum CfgError {
    /// The body has no entry block.
    NoEntry,
    /// The terminator of `block` names a block that does not exist.
    BadSuccessor { block: usize },
    /// A statement or terminator of `block` names a variable out of range.
    BadVariable { block: usize },
    /// `block` already holds a phi or sigma marker.
    UnexpectedMarker { block: usize },
}

pub open spec fn term_successors(t: Terminator) -> Seq<usize> {
    match t {
        Terminator::Goto { block } => seq![block],
        Terminator::SwitchInt { targets, otherwise, .. } => targets@.map_values(
            |p: (i64, usize)| p.1,
        ).push(otherwise),
        Terminator::Call { target, .. } => match target {
            Some(t) => seq![t],
            None => Seq::empty(),
        },
        _ => Seq::empty(),
    }
}

pub open spec fn operand_ok(o: Operand, nv: int) -> bool {
    match o {
        Operand::Var(v) => v < nv,
        Operand::Const(_) => true,
    }
}

/// A right-hand side of an input program: no markers, variables in range.
pub open spec fn plain_rvalue_ok(r: Rvalue, nv: int) -> bool {
    match r {
        Rvalue::Use(o) => operand_ok(o, nv),
        Rvalue::UnaryOp(_, o) => operand_ok(o, nv),
        Rvalue::BinaryOp(_, a, b) => operand_ok(a, nv) && operand_ok(b, nv),
        _ => false,
    }
}

pub open spec fn is_marker(r: Rvalue) -> bool {
    r is Phi || r is Essa
}

pub open spec fn term_vars_ok(t: Terminator, nv: int) -> bool {
    match t {
        Terminator::SwitchInt { discr, .. } => operand_ok(discr, nv),
        Terminator::Call { destination, .. } => match destination {
            Some(d) => d < nv,
            None => true,
        },
        _ => true,
    }
}

impl Body {
    pub open spec fn n(self) -> int {
        self.blocks@.len() as int
    }

    pub open spec fn succs(self, a: int) -> Seq<usize> {
        term_successors(self.blocks@[a].terminator)
    }

    /// A CFG edge `a -> b`.
    pub open spec fn edge(self, a: int, b: int) -> bool {
        0 <= a < self.n() && 0 <= b < self.n() && exists|k: int|
            0 <= k < self.succs(a).len() && self.succs(a)[k] as int == b
    }

    pub open spec fn block_successors_ok(self, b: int) -> bool {
        forall|k: int| 0 <= k < self.succs(b).len() ==> self.succs(b)[k] < self.n()
    }

    pub open spec fn block_vars_ok(self, b: int) -> bool {
        &&& forall|i: int|
            0 <= i < self.blocks@[b].statements@.len() ==> {
                let st = #[trigger] self.blocks@[b].statements@[i];
                st.dest < self.num_vars && (is_marker(st.rvalue) || plain_rvalue_ok(
                    st.rvalue,
                    self.num_vars as int,
                ))
            }
        &&& term_vars_ok(self.blocks@[b].terminator, self.num_vars as int)
    }

    pub open spec fn block_plain(self, b: int) -> bool {
        forall|i: int|
            0 <= i < self.blocks@[b].statements@.len() ==> !is_marker(
                self.blocks@[b].statements@[i].rvalue,
            )
    }

    /// A well-formed input: an entry block, edges into existing blocks,
    /// variables in range, and no phi or sigma markers yet.
    pub open spec fn wf(self) -> bool {
        &&& self.n() > 0
        &&& forall|b: int| 0 <= b < self.n() ==> self.block_successors_ok(b)
        &&& forall|b: int| 0 <= b < self.n() ==> self.block_vars_ok(b)
        &&& forall|b: int| 0 <= b < self.n() ==> self.block_plain(b)
    }

    /// The first structural fault, if any.
    pub open spec fn first_fault_at(self, b: int) -> Option<CfgError> {
        if !self.block_successors_ok(b) {
            Some(CfgError::BadSuccessor { block: b as usize })
        } else if !self.block_plain(b) {
            Some(CfgError::UnexpectedMarker { block: b as usize })
        } else if !self.block_vars_ok(b) {
            Some(CfgError::BadVariable { block: b as usize })
        } else {
            None
        }
    }

    /// `e` is the fault that a check reports: no entry block, or the fault of
    /// the first block at fault.
    pub open spec fn reported_fault(self, e: CfgError) -> bool {
        if self.n() == 0 {
            e == CfgError::NoEntry
        } else {
            exists|b: int|
                0 <= b < self.n() && Some(e) == self.first_fault_at(b) && forall|c: int|
                    0 <= c < b ==> self.block_ok(c)
        }
    }

    pub open spec fn block_ok(self, b: int) -> bool {
        self.block_successors_ok(b) && self.block_plain(b) && self.block_vars_ok(b)
    }
}

/// The blocks that control may pass to after `t`, in order.
pub fn successors(t: &Terminator) -> (r: Vec<usize>)
    ensures
        r@ == term_successors(*t),
{
    match t {
        Terminator::Goto { block } => vec![*block],
        Terminator::SwitchInt { targets, otherwise, .. } => {
            let mut r: Vec<usize> = Vec::new();
            let mut k: usize = 0;
            while k < targets.len()
                invariant
                    k <= targets@.len(),
                    r@ == targets@.subrange(0, k as int).map_values(|p: (i64, usize)| p.1),
                decreases targets@.len() - k,
            {
                r.push(targets[k].1);
                k += 1;
                assert(targets@.subrange(0, k as int).map_values(|p: (i64, usize)| p.1)
                    =~= targets@.subrange(0, k - 1).map_values(|p: (i64, usize)| p.1).push(
                    targets@[k - 1].1,
                ));
            }
            assert(targets@.subrange(0, k as int) =~= targets@);
            r.push(*otherwise);
            r
        },
        Terminator::Call { target, .. } => match target {
            Some(t) => vec![*t],
            None => Vec::new(),
        },
        _ => Vec::new(),
    }
}

fn operand_in_range(o: &Operand, nv: usize) -> (r: bool)
    ensures
        r == operand_ok(*o, nv as int),
{
    match o {
        Operand::Var(v) => *v < nv,
        Operand::Const(_) => true,
    }
}

impl Body {
    /// Whether `a -> b` is an edge.
    pub fn has_edge(&self, a: usize, b: usize) -> (r: bool)
        requires
            a < self.n(),
        ensures
            r == self.edge(a as int, b as int),
    {
        if b >= self.blocks.len() {
            return false;
        }
        let s = successors(&self.blocks[a].terminator);
        let mut k: usize = 0;
        while k < s.len()
            invariant
                a < self.n(),
                b < self.n(),
                s@ == self.succs(a as int),
                k <= s@.len(),
                forall|j: int| 0 <= j < k ==> s@[j] != b,
            decreases s@.len() - k,
        {
            if s[k] == b {
                assert(self.succs(a as int)[k as int] as int == b as int);
                return true;
            }
            k += 1;
        }
        false
    }

    fn check_block(&self, b: usize) -> (r: Option<CfgError>)
        requires
            b < self.n(),
        ensures
            r == self.first_fault_at(b as int),
    {
        let s = successors(&self.blocks[b].terminator);
        let n = self.blocks.len();
        let mut k: usize = 0;
        while k < s.len()
            invariant
                s@ == self.succs(b as int),
                n == self.n(),
                k <= s@.len(),
                forall|j: int| 0 <= j < k ==> s@[j] < n,
            decreases s@.len() - k,
        {
            if s[k] >= n {
                return Some(CfgError::BadSuccessor { block: b });
            }
            k += 1;
        }
        assert(self.block_successors_ok(b as int));
        let stmts = &self.blocks[b].statements;
        let mut i: usize = 0;
        while i < stmts.len()
            invariant
                b < self.n(),
                self.block_successors_ok(b as int),
                stmts@ == self.blocks@[b as int].statements@,
                i <= stmts@.len(),
                forall|j: int| 0 <= j < i ==> !is_marker(stmts@[j].rvalue),
            decreases stmts@.len() - i,
        {
            match &stmts[i].rvalue {
                Rvalue::Phi(_) | Rvalue::Essa(_) => {
                    assert(is_marker(stmts@[i as int].rvalue));
                    return Some(CfgError::UnexpectedMarker { block: b });
                },
                _ => {},
            }
            i += 1;
        }
        let nv = self.num_vars;
        let mut i: usize = 0;
        while i < stmts.len()
            invariant
                b < self.n(),
                self.block_successors_ok(b as int),
                self.block_plain(b as int),
                stmts@ == self.blocks@[b as int].statements@,
                nv == self.num_vars,
                i <= stmts@.len(),
                forall|j: int|
                    0 <= j < i ==> stmts@[j].dest < nv && (is_marker(stmts@[j].rvalue)
                        || plain_rvalue_ok(stmts@[j].rvalue, nv as int)),
            decreases stmts@.len() - i,
        {
            let st = &stmts[i];
            let ok = st.dest < nv && match &st.rvalue {
                Rvalue::Use(o) => operand_in_range(o, nv),
                Rvalue::UnaryOp(_, o) => operand_in_range(o, nv),
                Rvalue::BinaryOp(_, x, y) => operand_in_range(x, nv) && operand_in_range(y, nv),
                _ => true,
            };
            if !ok {
                assert(!(stmts@[i as int].dest < nv && (is_marker(stmts@[i as int].rvalue)
                    || plain_rvalue_ok(stmts@[i as int].rvalue, nv as int))));
                return Some(CfgError::BadVariable { block: b });
            }
            i += 1;
        }
        let tok = match &self.blocks[b].terminator {
            Terminator::SwitchInt { discr, .. } => operand_in_range(discr, nv),
            Terminator::Call { destination, .. } => match destination {
                Some(d) => *d < nv,
                None => true,
            },
            _ => true,
        };
        if !tok {
            return Some(CfgError::BadVariable { block: b });
        }
        None
    }

    /// Checks that the body is a well-formed input; on a fault, reports the
    /// first block at fault, in block order.
    pub fn check(&self) -> (r: Result<(), CfgError>)
        ensures
            r is Ok <==> self.wf(),
            r matches Err(e) ==> self.reported_fault(e),
    {
        if self.blocks.len() == 0 {
            return Err(CfgError::NoEntry);
        }
        let mut b: usize = 0;
        while b < self.blocks.len()
            invariant
                b <= self.n(),
                forall|c: int| 0 <= c < b ==> self.block_ok(c),
            decreases self.n() - b,
        {
            let f = self.check_block(b);
            if let Some(e) = f {
                return Err(e);
            }
            b += 1;
        }
        assert forall|c: int| 0 <= c < self.n() implies self.block_successors_ok(c)
            && self.block_vars_ok(c) && self.block_plain(c) by {
            assert(self.block_ok(c));
        }
        Ok(())
    }
}


/// `l` lists, in increasing order, exactly the predecessors of `b`.
pub open spec fn pred_list(body: Body, b: int, l: Seq<usize>) -> bool {
    &&& forall|j: int| 0 <= j < l.len() ==> body.edge(#[trigger] l[j] as int, b)
    &&& forall|p: int| #[trigger] body.edge(p, b) ==> l.contains(p as usize)
    &&& forall|i: int, j: int| 0 <= i < j < l.len() ==> l[i] < l[j]
}

impl Body {
    /// The predecessors of every block, each list in increasing block order.
    pub fn predecessors(&self) -> (r: Vec<Vec<usize>>)
        ensures
            r@.len() == self.n(),
            forall|b: int| 0 <= b < self.n() ==> pred_list(*self, b, #[trigger] r@[b]@),
    {
        let n = self.blocks.len();
        let mut r: Vec<Vec<usize>> = Vec::new();
        let mut b: usize = 0;
        while b < n
            invariant
                n == self.n(),
                b <= n,
                r@.len() == b,
                forall|c: int| 0 <= c < b ==> pred_list(*self, c, #[trigger] r@[c]@),
            decreases n - b,
        {
            let mut l: Vec<usize> = Vec::new();
            let mut p: usize = 0;
            while p < n
                invariant
                    n == self.n(),
                    b < n,
                    p <= n,
                    forall|j: int| 0 <= j < l@.len() ==> #[trigger] l@[j] < p && self.edge(l@[j] as int, b as int),
                    forall|q: int| 0 <= q < p && self.edge(q, b as int) ==> l@.contains(q as usize),
                    forall|i: int, j: int| 0 <= i < j < l@.len() ==> l@[i] < l@[j],
                decreases n - p,
            {
                let ghost l0 = l@;
                if self.has_edge(p, b) {
                    l.push(p);
                    proof {
                        assert(l@[l@.len() - 1] == p);
                        assert forall|q: int| 0 <= q < p && #[trigger] l0.contains(q as usize) implies l@.contains(q as usize) by {
                            let j = choose|j: int| 0 <= j < l0.len() && l0[j] == q as usize;
                            assert(l@[j] == q as usize);
                        }
                    }
                }
                p += 1;
            }
            r.push(l);
            b += 1;
        }
        r
    }
}

} // verus!
