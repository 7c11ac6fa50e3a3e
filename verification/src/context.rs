//! The state that lowering threads through one function: the symbol table,
//! the register counter, the stack size, and the label counter, which alone
//! is carried over from one function to the next.

use vstd::prelude::*;
use crate::error::LowerError;

verus! {

/// The size of one slot of the stack frame, in bytes.
pub const SLOT: usize = 8;

/// The mathematical model of a lowering context.
pub struct State {
    /// The frame offset of each variable seen so far.
    pub vars: Map<Seq<char>, usize>,
    /// The next register to hand out.
    pub regno: usize,
    /// The bytes of stack frame in use.
    pub stacksize: usize,
    /// The next label to hand out.
    pub label: usize,
}

impl State {
    /// The state at the start of a function, with `label` the next free label.
    pub open spec fn fresh(label: usize) -> State {
        State { vars: Map::empty(), regno: 1, stacksize: 0, label: label }
    }

    /// Register numbers start at 1 and the stack grows by whole slots.
    pub open spec fn well_formed(self) -> bool {
        &&& self.regno >= 1
        &&& self.stacksize % SLOT == 0
    }

    /// Whether a register is left to hand out.
    pub open spec fn has_reg(self) -> bool {
        self.regno < usize::MAX
    }

    /// The state after handing out register `self.regno`.
    pub open spec fn take_reg(self) -> State {
        State { regno: (self.regno + 1) as usize, ..self }
    }

    /// Whether a label is left to hand out.
    pub open spec fn has_label(self) -> bool {
        self.label < usize::MAX
    }

    /// The state after handing out label `self.label`.
    pub open spec fn take_label(self) -> State {
        State { label: (self.label + 1) as usize, ..self }
    }

    /// Whether the frame can grow by one more slot.
    pub open spec fn has_slot(self) -> bool {
        self.stacksize + SLOT <= usize::MAX
    }

    /// The state after giving a local variable the next slot: its offset is
    /// the stack size before the frame grows.
    pub open spec fn with_local(self, name: Seq<char>) -> State {
        State {
            vars: self.vars.insert(name, self.stacksize),
            stacksize: (self.stacksize + SLOT) as usize,
            ..self
        }
    }

    /// The state after giving a parameter the next slot: its offset is the
    /// stack size after the frame has grown.
    pub open spec fn with_param(self, name: Seq<char>) -> State {
        State {
            vars: self.vars.insert(name, (self.stacksize + SLOT) as usize),
            stacksize: (self.stacksize + SLOT) as usize,
            ..self
        }
    }
}

/// One entry of the symbol table.
#[derive(Clone, Debug)]
pub struct Var {
    /// The name of the variable.
    pub name: String,
    /// Its offset from the frame base, in bytes.
    pub offset: usize,
}

/// The map that a list of entries stands for. A later entry for a name
/// replaces an earlier one.
pub open spec fn vars_map(entries: Seq<Var>) -> Map<Seq<char>, usize>
    decreases entries.len(),
{
    if entries.len() == 0 {
        Map::empty()
    } else {
        vars_map(entries.drop_last()).insert(entries.last().name@, entries.last().offset)
    }
}

/// The state of the lowering of one function.
#[derive(Clone, Debug)]
pub struct LoweringContext {
    /// The symbol table: the variables seen so far, each with its offset.
    pub vars: Vec<Var>,
    /// The next register to hand out.
    pub regno: usize,
    /// The bytes of stack frame in use.
    pub stacksize: usize,
    /// The next label to hand out.
    pub label: usize,
}

impl View for LoweringContext {
    type V = State;

    open spec fn view(&self) -> State {
        State {
            vars: vars_map(self.vars@),
            regno: self.regno,
            stacksize: self.stacksize,
            label: self.label,
        }
    }
}

impl LoweringContext {
    /// A context for a new function: no variables, register counter at 1,
    /// empty frame. `label` is the next label that is free in the program.
    pub fn new(label: usize) -> (ctx: Self)
        ensures
            ctx@ == State::fresh(label),
            ctx@.well_formed(),
    {
        LoweringContext { vars: Vec::new(), regno: 1, stacksize: 0, label: label }
    }

    /// The frame offset of `name`, if the name has one.
    pub fn lookup(&self, name: &String) -> (found: Option<usize>)
        ensures
            found == if self@.vars.contains_key(name@) {
                Some(self@.vars[name@])
            } else {
                None
            },
    {
        let mut i: usize = self.vars.len();
        proof {
            assert(self.vars@.take(i as int) == self.vars@);
        }
        while i > 0
            invariant
                i <= self.vars.len(),
                vars_map(self.vars@).contains_key(name@) == vars_map(
                    self.vars@.take(i as int),
                ).contains_key(name@),
                vars_map(self.vars@).contains_key(name@) ==> vars_map(self.vars@)[name@]
                    == vars_map(self.vars@.take(i as int))[name@],
            decreases i,
        {
            i = i - 1;
            proof {
                let upto = self.vars@.take(i + 1);
                assert(upto.drop_last() == self.vars@.take(i as int));
                assert(upto.last() == self.vars@[i as int]);
            }
            if self.vars[i].name == *name {
                return Some(self.vars[i].offset);
            }
        }
        proof {
            assert(self.vars@.take(0).len() == 0);
        }
        None
    }

    /// Hands out the next register.
    pub fn alloc_reg(&mut self) -> (r: Result<usize, LowerError>)
        ensures
            old(self)@.well_formed() ==> final(self)@.well_formed(),
            old(self)@.has_reg() ==> r == Ok::<usize, LowerError>(old(self)@.regno) && final(self)@
                == old(self)@.take_reg(),
            !old(self)@.has_reg() ==> r == Err::<usize, LowerError>(LowerError::Exhausted)
                && *final(self) == *old(self),
    {
        if self.regno == usize::MAX {
            return Err(LowerError::Exhausted);
        }
        let r = self.regno;
        self.regno = self.regno + 1;
        Ok(r)
    }

    /// Hands out the next label.
    pub fn alloc_label(&mut self) -> (r: Result<usize, LowerError>)
        ensures
            old(self)@.well_formed() ==> final(self)@.well_formed(),
            old(self)@.has_label() ==> r == Ok::<usize, LowerError>(old(self)@.label)
                && final(self)@ == old(self)@.take_label(),
            !old(self)@.has_label() ==> r == Err::<usize, LowerError>(LowerError::Exhausted)
                && *final(self) == *old(self),
    {
        if self.label == usize::MAX {
            return Err(LowerError::Exhausted);
        }
        let x = self.label;
        self.label = self.label + 1;
        Ok(x)
    }

    /// Gives the local variable `name` the next slot of the frame and returns
    /// its offset, which is the stack size before the frame grows.
    pub fn bind_local(&mut self, name: &String) -> (r: Result<usize, LowerError>)
        ensures
            old(self)@.well_formed() ==> final(self)@.well_formed(),
            old(self)@.has_slot() ==> r == Ok::<usize, LowerError>(old(self)@.stacksize)
                && final(self)@ == old(self)@.with_local(name@),
            !old(self)@.has_slot() ==> r == Err::<usize, LowerError>(LowerError::Exhausted)
                && *final(self) == *old(self),
    {
        if self.stacksize > usize::MAX - SLOT {
            return Err(LowerError::Exhausted);
        }
        let offset = self.stacksize;
        self.vars.push(Var { name: name.clone(), offset: offset });
        self.stacksize = self.stacksize + SLOT;
        proof {
            assert(self.vars@.drop_last() == old(self).vars@);
        }
        Ok(offset)
    }

    /// Gives the parameter `name` the next slot of the frame and returns its
    /// offset, which is the stack size after the frame has grown.
    pub fn bind_param(&mut self, name: &String) -> (r: Result<usize, LowerError>)
        ensures
            old(self)@.well_formed() ==> final(self)@.well_formed(),
            old(self)@.has_slot() ==> r == Ok::<usize, LowerError>(
                (old(self)@.stacksize + SLOT) as usize,
            ) && final(self)@ == old(self)@.with_param(name@),
            !old(self)@.has_slot() ==> r == Err::<usize, LowerError>(LowerError::Exhausted)
                && *final(self) == *old(self),
    {
        if self.stacksize > usize::MAX - SLOT {
            return Err(LowerError::Exhausted);
        }
        self.stacksize = self.stacksize + SLOT;
        let offset = self.stacksize;
        self.vars.push(Var { name: name.clone(), offset: offset });
        proof {
            assert(self.vars@.drop_last() == old(self).vars@);
        }
        Ok(offset)
    }
}

} // verus!
