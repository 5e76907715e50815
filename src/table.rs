use vstd::prelude::*;

verus! {

/// An operator token that a precedence table can hold an entry for.
#[derive(Debug, Clone, Copy, PartialEq, Eq, Structural)]
pub enum Op {
    Add,
    Sub,
    Mul,
    Div,
    Pow,
}

pub const PREC_ADD: i32 = 1;
pub const PREC_SUB: i32 = 1;
pub const PREC_MUL: i32 = 2;
pub const PREC_DIV: i32 = 2;
pub const PREC_NEG: i32 = 3;
pub const PREC_POS: i32 = 3;
pub const PREC_POW: i32 = 4;

pub const ASSOC_LEFT: i32 = 0;
pub const ASSOC_RIGHT: i32 = 1;

/// How strongly an operator binds: its precedence and its associativity
/// bit (0 for left, 1 for right).
#[derive(Debug, Clone, Copy, PartialEq, Eq, Structural)]
pub struct Binding {
    pub prec: i32,
    pub assoc: i32,
}

impl Binding {
    /// The associativity is a bit, and the operand threshold fits in `i32`.
    pub open spec fn wf(self) -> bool {
        (self.assoc == 0 || self.assoc == 1) && self.prec < i32::MAX
    }

    /// The threshold with which the operand to the right of the operator is
    /// parsed: the operator's own precedence when it is right-associative,
    /// so that an equal operator further right joins the operand; one above
    /// it when left-associative, so that such an operator is left for the
    /// caller.
    pub open spec fn next_bp(self) -> int {
        self.prec + 1 - self.assoc
    }
}

/// A lookup from operator to binding; an operator without an entry does not
/// bind at the table's position.
#[derive(Debug, Clone, Copy, PartialEq, Eq, Structural)]
pub struct PrecTable {
    pub add: Option<Binding>,
    pub sub: Option<Binding>,
    pub mul: Option<Binding>,
    pub div: Option<Binding>,
    pub pow: Option<Binding>,
}

impl PrecTable {
    pub open spec fn spec_get(self, op: Op) -> Option<Binding> {
        match op {
            Op::Add => self.add,
            Op::Sub => self.sub,
            Op::Mul => self.mul,
            Op::Div => self.div,
            Op::Pow => self.pow,
        }
    }

    pub open spec fn wf(self) -> bool {
        forall|op: Op| #[trigger] self.spec_get(op) is Some ==> self.spec_get(op)->0.wf()
    }

    /// A table with no entries.
    pub fn new() -> (r: PrecTable)
        ensures
            forall|op: Op| #[trigger] r.spec_get(op) == None::<Binding>,
    {
        PrecTable { add: None, sub: None, mul: None, div: None, pow: None }
    }

    pub fn get(&self, op: Op) -> (r: Option<Binding>)
        ensures
            r == self.spec_get(op),
    {
        match op {
            Op::Add => self.add,
            Op::Sub => self.sub,
            Op::Mul => self.mul,
            Op::Div => self.div,
            Op::Pow => self.pow,
        }
    }

    /// Sets the entry of `op`, leaving the others as they were.
    pub fn insert(&mut self, op: Op, b: Binding)
        ensures
            final(self).spec_get(op) == Some(b),
            forall|o: Op| o != op ==> #[trigger] final(self).spec_get(o) == old(self).spec_get(o),
    {
        match op {
            Op::Add => self.add = Some(b),
            Op::Sub => self.sub = Some(b),
            Op::Mul => self.mul = Some(b),
            Op::Div => self.div = Some(b),
            Op::Pow => self.pow = Some(b),
        }
    }
}

/// The bindings of operators in prefix position and in infix position.
#[derive(Debug, Clone, Copy, PartialEq, Eq, Structural)]
pub struct AffixTable {
    pub prefix: PrecTable,
    pub infix: PrecTable,
}

impl AffixTable {
    pub open spec fn wf(self) -> bool {
        self.prefix.wf() && self.infix.wf()
    }
}

/// The standard tables: unary `+` and `-` at 3, right-associative; binary
/// `+ -` at 1, `* /` at 2, all left-associative; `^` at 4, right-associative.
pub open spec fn standard_tables(t: AffixTable) -> bool {
    &&& t.prefix.spec_get(Op::Sub) == Some(Binding { prec: 3, assoc: 1 })
    &&& t.prefix.spec_get(Op::Add) == Some(Binding { prec: 3, assoc: 1 })
    &&& t.prefix.spec_get(Op::Mul) == None::<Binding>
    &&& t.prefix.spec_get(Op::Div) == None::<Binding>
    &&& t.prefix.spec_get(Op::Pow) == None::<Binding>
    &&& t.infix.spec_get(Op::Add) == Some(Binding { prec: 1, assoc: 0 })
    &&& t.infix.spec_get(Op::Sub) == Some(Binding { prec: 1, assoc: 0 })
    &&& t.infix.spec_get(Op::Mul) == Some(Binding { prec: 2, assoc: 0 })
    &&& t.infix.spec_get(Op::Div) == Some(Binding { prec: 2, assoc: 0 })
    &&& t.infix.spec_get(Op::Pow) == Some(Binding { prec: 4, assoc: 1 })
}

/// Builds the prefix and infix tables of the arithmetic operators.
pub fn make_tables() -> (r: AffixTable)
    ensures
        standard_tables(r),
        r.wf(),
{
    let mut prefix = PrecTable::new();
    let mut infix = PrecTable::new();

    prefix.insert(Op::Sub, Binding { prec: PREC_NEG, assoc: ASSOC_RIGHT });
    prefix.insert(Op::Add, Binding { prec: PREC_POS, assoc: ASSOC_RIGHT });

    infix.insert(Op::Add, Binding { prec: PREC_ADD, assoc: ASSOC_LEFT });
    infix.insert(Op::Sub, Binding { prec: PREC_SUB, assoc: ASSOC_LEFT });
    infix.insert(Op::Mul, Binding { prec: PREC_MUL, assoc: ASSOC_LEFT });
    infix.insert(Op::Div, Binding { prec: PREC_DIV, assoc: ASSOC_LEFT });
    infix.insert(Op::Pow, Binding { prec: PREC_POW, assoc: ASSOC_RIGHT });

    let r = AffixTable { prefix, infix };
    assert(r.prefix.wf()) by {
        assert forall|op: Op| #[trigger] r.prefix.spec_get(op) is Some implies r.prefix.spec_get(op)->0.wf() by {
            match op { Op::Add => {}, Op::Sub => {}, Op::Mul => {}, Op::Div => {}, Op::Pow => {} }
        }
    }
    assert(r.infix.wf()) by {
        assert forall|op: Op| #[trigger] r.infix.spec_get(op) is Some implies r.infix.spec_get(op)->0.wf() by {
            match op { Op::Add => {}, Op::Sub => {}, Op::Mul => {}, Op::Div => {}, Op::Pow => {} }
        }
    }
    r
}

} // verus!
