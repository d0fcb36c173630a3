//! Bounded tables of native functions kept by the virtual machine (the
//! registry of functions, indexed by registration order, and the stack of
//! blocks being passed to native methods), and the decision that the
//! interpreter loop takes before each instruction.
use vstd::prelude::*;
use crate::error::Error;
use std::rc::Rc;

verus! {

/// One step of the trail of entries into the interpreter (the root, a run,
/// an internal run, a call into a proc), newest first.
pub struct Breadcrumb {
    pub event: &'static str,
    pub caller: Option<String>,
    pub return_reg: Option<usize>,
    pub upper: Option<Rc<Breadcrumb>>,
}

/// The events of a trail, newest first.
pub open spec fn trail_events(b: Option<Rc<Breadcrumb>>) -> Seq<Seq<char>>
    decreases b,
{
    match b {
        None => Seq::empty(),
        Some(c) => seq![c.event@] + trail_events(c.upper),
    }
}

impl Breadcrumb {
    /// Puts a breadcrumb for `event` on top of the trail `upper`.
    pub fn push(upper: Option<Rc<Breadcrumb>>, event: &'static str, caller: Option<String>, return_reg: Option<usize>) -> (r: Rc<Breadcrumb>)
        ensures
            r.event == event,
            r.caller == caller,
            r.return_reg == return_reg,
            r.upper == upper,
            trail_events(Some(r)) == seq![event@] + trail_events(upper),
    {
        Rc::new(Breadcrumb { event, caller, return_reg, upper })
    }
}

/// Capacity of the function registry.
pub const FN_TABLE_CAPACITY: usize = 4096;

/// Capacity of the block stack.
pub const FN_STACK_CAPACITY: usize = 64;

/// Registry of native functions, each found again by the index at which it
/// was registered.
pub struct RFnTable<F> {
    table: Vec<F>,
}

impl<F> View for RFnTable<F> {
    type V = Seq<F>;

    closed spec fn view(&self) -> Seq<F> {
        self.table@
    }
}

impl<F> RFnTable<F> {
    /// Well-formedness: the registry never exceeds its capacity.
    pub closed spec fn wf(&self) -> bool {
        self.table@.len() <= FN_TABLE_CAPACITY
    }

    /// An empty registry.
    pub fn new() -> (r: Self)
        ensures
            r.wf(),
            r@ == Seq::<F>::empty(),
    {
        RFnTable { table: Vec::new() }
    }

    /// Registers `f` at the next index.
    pub fn set(&mut self, f: F)
        requires
            old(self).wf(),
            old(self)@.len() < FN_TABLE_CAPACITY,
        ensures
            final(self).wf(),
            final(self)@ == old(self)@.push(f),
    {
        self.table.push(f);
    }

    /// The function registered at index `i`, if there is one.
    pub fn get(&self, i: usize) -> (r: Option<&F>)
        ensures
            i < self@.len() ==> r == Some(&self@[i as int]),
            i >= self@.len() ==> r is None,
    {
        if i >= self.table.len() {
            return None;
        }
        Some(&self.table[i])
    }

    /// Number of registered functions.
    pub fn len(&self) -> (r: usize)
        ensures
            r == self@.len(),
    {
        self.table.len()
    }

    /// Whether nothing is registered.
    pub fn is_empty(&self) -> (r: bool)
        ensures
            r == (self@.len() == 0),
    {
        self.table.len() == 0
    }
}

/// Stack of native blocks handed to native methods.
pub struct RFnStack<F> {
    stack: Vec<F>,
}

impl<F> View for RFnStack<F> {
    type V = Seq<F>;

    closed spec fn view(&self) -> Seq<F> {
        self.stack@
    }
}

impl<F> RFnStack<F> {
    /// Well-formedness: the stack never exceeds its capacity.
    pub closed spec fn wf(&self) -> bool {
        self.stack@.len() <= FN_STACK_CAPACITY
    }

    /// An empty stack.
    pub fn new() -> (r: Self)
        ensures
            r.wf(),
            r@ == Seq::<F>::empty(),
    {
        RFnStack { stack: Vec::new() }
    }

    /// Pushes `f`; a full stack is refused and left as it was.
    pub fn push(&mut self, f: F) -> (r: Result<(), Error>)
        requires
            old(self).wf(),
        ensures
            final(self).wf(),
            old(self)@.len() < FN_STACK_CAPACITY ==> r is Ok && final(self)@ == old(self)@.push(f),
            old(self)@.len() >= FN_STACK_CAPACITY ==> (r matches Err(Error::Internal(m)) && m@
                == "RFnStack overflow"@ && final(self)@ == old(self)@),
    {
        if self.stack.len() >= FN_STACK_CAPACITY {
            return Err(Error::internal("RFnStack overflow"));
        }
        self.stack.push(f);
        Ok(())
    }

    /// Pops the most recently pushed block; an empty stack is refused.
    pub fn pop(&mut self) -> (r: Result<F, Error>)
        requires
            old(self).wf(),
        ensures
            final(self).wf(),
            old(self)@.len() > 0 ==> r == Ok::<F, Error>(old(self)@.last()) && final(self)@ == old(self)@.drop_last(),
            old(self)@.len() == 0 ==> (r matches Err(Error::Internal(m)) && m@ == "RFnStack underflow"@
                && final(self)@ == old(self)@),
    {
        match self.stack.pop() {
            Some(f) => Ok(f),
            None => Err(Error::internal("RFnStack underflow")),
        }
    }

    /// Number of blocks on the stack.
    pub fn len(&self) -> (r: usize)
        ensures
            r == self@.len(),
    {
        self.stack.len()
    }

    /// Whether the stack is empty.
    pub fn is_empty(&self) -> (r: bool)
        ensures
            r == (self@.len() == 0),
    {
        self.stack.len() == 0
    }
}

/// A registered function is found at the index it was registered at, and
/// registering leaves the functions registered before it in place.
pub proof fn lemma_set_then_get<F>(before: RFnTable<F>, after: RFnTable<F>, f: F, i: int)
    requires
        after@ == before@.push(f),
    ensures
        after@.len() == before@.len() + 1,
        after@[before@.len() as int] == f,
        0 <= i < before@.len() ==> after@[i] == before@[i],
{
}

/// Popping right after pushing gives back the pushed block and leaves the
/// stack as it was before the push.
pub proof fn lemma_push_then_pop<F>(before: RFnStack<F>, after: RFnStack<F>, f: F)
    requires
        after@ == before@.push(f),
    ensures
        after@.len() > 0,
        after@.last() == f,
        after@.drop_last() == before@,
{
    assert(before@.push(f).drop_last() =~= before@);
}

/// The first catch target, in the order the targets are listed, that lies
/// after instruction `pc`: where an exception raised at `pc` is handled.
pub open spec fn next_handler(targets: Seq<usize>, pc: usize) -> Option<usize>
    decreases targets.len(),
{
    if targets.len() == 0 {
        None
    } else if pc < targets[0] {
        Some(targets[0])
    } else {
        next_handler(targets.drop_first(), pc)
    }
}

/// The position of the handler that catches an exception raised at `pc`
/// if any catch target lies after it.
pub fn find_next_handler_pos(catch_target_pos: &[usize], pc: usize) -> (r: Option<usize>)
    ensures
        r == next_handler(catch_target_pos@, pc),
{
    let mut i: usize = 0;
    assert(catch_target_pos@.subrange(0, catch_target_pos@.len() as int) =~= catch_target_pos@);
    while i < catch_target_pos.len()
        invariant
            i <= catch_target_pos@.len(),
            next_handler(catch_target_pos@.subrange(i as int, catch_target_pos@.len() as int), pc)
                == next_handler(catch_target_pos@, pc),
        decreases catch_target_pos@.len() - i,
    {
        let ghost rest = catch_target_pos@.subrange(i as int, catch_target_pos@.len() as int);
        assert(rest.drop_first() =~= catch_target_pos@.subrange(i + 1, catch_target_pos@.len() as int));
        assert(rest[0] == catch_target_pos@[i as int]);
        if pc < catch_target_pos[i] {
            return Some(catch_target_pos[i]);
        }
        i = i + 1;
    }
    None
}

/// What the interpreter loop does next.
pub enum NextStep {
    /// Execute the instruction at this position.
    Execute(usize),
    /// Jump to this catch handler, the pending exception rescued.
    Rescue(usize),
    /// A `return` from a block has reached the method it returns from:
    /// return its value there.
    ReturnFromBlock,
    /// A `break` is pending: return from the current frame and hand the
    /// value to the caller of the block.
    UnwindBreak,
    /// Return from the current frame with the exception still pending.
    Unwind,
    /// The instructions of the IREP are exhausted.
    Finished,
}

/// The step that the interpreter loop takes at instruction `pc` of an IREP
/// of `code_len` instructions and id `irep_id`, given the pending exception,
/// whether it was just rescued, and the catch targets of the IREP.
pub open spec fn spec_next_step(
    pc: usize,
    code_len: usize,
    irep_id: usize,
    exception: Option<Error>,
    rescued: bool,
    targets: Seq<usize>,
) -> NextStep {
    match exception {
        Some(e) if !rescued => match next_handler(targets, pc) {
            Some(pos) => NextStep::Rescue(pos),
            None => match e {
                Error::BlockReturn(id, _) if id == irep_id => NextStep::ReturnFromBlock,
                Error::Break(_) => NextStep::UnwindBreak,
                _ => NextStep::Unwind,
            },
        },
        _ => if code_len <= pc {
            NextStep::Finished
        } else {
            NextStep::Execute(pc)
        },
    }
}

/// The decision at the head of the interpreter loop: a
/// pending exception is rescued by the first catch target after `pc`, or
/// ends a block's `return`, or unwinds the frame; otherwise the instruction
/// at `pc` runs, until the instructions run out.
pub fn next_step(
    pc: usize,
    code_len: usize,
    irep_id: usize,
    exception: Option<&Error>,
    rescued: bool,
    catch_target_pos: &[usize],
) -> (r: NextStep)
    ensures
        r == spec_next_step(pc, code_len, irep_id, match exception {
            Some(e) => Some(*e),
            None => None,
        }, rescued, catch_target_pos@),
{
    match exception {
        Some(e) if !rescued => match find_next_handler_pos(catch_target_pos, pc) {
            Some(pos) => NextStep::Rescue(pos),
            None => match e {
                Error::BlockReturn(id, _) if *id == irep_id => NextStep::ReturnFromBlock,
                Error::Break(_) => NextStep::UnwindBreak,
                _ => NextStep::Unwind,
            },
        },
        _ => if code_len <= pc {
            NextStep::Finished
        } else {
            NextStep::Execute(pc)
        },
    }
}

/// An exception raised inside the range of a catch handler moves the
/// interpreter to that handler's target, the first target after the
/// instruction that raised it.
pub proof fn lemma_exception_goes_to_handler(
    pc: usize,
    code_len: usize,
    irep_id: usize,
    e: Error,
    targets: Seq<usize>,
    k: int,
)
    requires
        0 <= k < targets.len(),
        pc < targets[k],
        forall|j: int| 0 <= j < k ==> targets[j] <= pc,
    ensures
        spec_next_step(pc, code_len, irep_id, Some(e), false, targets) == NextStep::Rescue(targets[k]),
    decreases k,
{
    if k > 0 {
        assert forall|j: int| 0 <= j < k - 1 implies targets.drop_first()[j] <= pc by {
            assert(targets.drop_first()[j] == targets[j + 1]);
        }
        lemma_exception_goes_to_handler(pc, code_len, irep_id, e, targets.drop_first(), k - 1);
        assert(targets[0] <= pc);
        assert(next_handler(targets, pc) == next_handler(targets.drop_first(), pc));
    }
}

} // verus!
