use vstd::prelude::*;

verus! {

/// How a basic block ends.
#[derive(Clone, Copy, Debug, PartialEq, Eq, Structural)]
pub enum Terminator {
    /// Not ended yet: instructions may still be appended.
    Open,
    Jump(usize),
    Branch { cond: usize, then_block: usize, else_block: usize },
    /// Returns the value in the given temporary, or unit.
    Return(Option<usize>),
}

/// The blocks that lowering an `if` creates.
#[derive(Clone, Copy, Debug, PartialEq, Eq, Structural)]
pub struct IfBlocks {
    pub then_block: usize,
    pub else_block: usize,
    pub merge: usize,
}

/// The blocks that lowering a `loop` creates: `continue` jumps to
/// `header`, `break` to `exit`.
#[derive(Clone, Copy, Debug, PartialEq, Eq, Structural)]
pub struct LoopBlocks {
    pub header: usize,
    pub body: usize,
    pub exit: usize,
}

/// The control-flow graph of one function under construction: the
/// terminator of each block, by block index, and the block that lowering
/// currently appends to.
pub struct Cfg {
    pub terms: Vec<Terminator>,
    pub current: usize,
}

impl Cfg {
    pub open spec fn wf(&self) -> bool {
        self.current < self.terms@.len()
    }

    /// Room for `n` more blocks.
    pub open spec fn room(&self, n: int) -> bool {
        self.terms@.len() + n <= usize::MAX
    }

    /// A graph with one open entry block.
    pub fn new() -> (r: Cfg)
        ensures
            r.wf(),
            r.terms@ == seq![Terminator::Open],
            r.current == 0,
    {
        let mut terms: Vec<Terminator> = Vec::new();
        terms.push(Terminator::Open);
        Cfg { terms, current: 0 }
    }

    /// Appends an open block and returns its index.
    fn add_block(&mut self) -> (b: usize)
        requires
            old(self).room(1),
        ensures
            b == old(self).terms@.len(),
            final(self).terms@ == old(self).terms@.push(Terminator::Open),
            final(self).current == old(self).current,
    {
        let b = self.terms.len();
        self.terms.push(Terminator::Open);
        b
    }

    /// Ends the current block with `t`, unless it has already ended (after
    /// a `return`, `break` or `continue`), which makes the rest unreachable.
    pub fn terminate(&mut self, t: Terminator)
        requires
            old(self).wf(),
        ensures
            final(self).wf(),
            final(self).current == old(self).current,
            old(self).terms@[old(self).current as int] == Terminator::Open ==> final(self).terms@
                == old(self).terms@.update(old(self).current as int, t),
            old(self).terms@[old(self).current as int] != Terminator::Open ==> final(self).terms@
                == old(self).terms@,
    {
        let c = self.current;
        if self.terms[c] == Terminator::Open {
            self.terms.set(c, t);
        }
    }

    /// Continues lowering in block `b`.
    pub fn switch_to(&mut self, b: usize)
        requires
            b < old(self).terms@.len(),
        ensures
            final(self).wf(),
            final(self).terms@ == old(self).terms@,
            final(self).current == b,
    {
        self.current = b;
    }

    /// Lowers the head of `if cond { .. } else { .. }` (or, without `else`,
    /// of `if cond { .. }`): the current block branches on `cond` to a new
    /// "then" block, and to a new "else" block or straight to the new merge
    /// block; lowering goes on in the "then" block. Each branch ends with
    /// `terminate(Jump(merge))`.
    pub fn begin_if(&mut self, cond: usize, has_else: bool) -> (r: IfBlocks)
        requires
            old(self).wf(),
            old(self).room(3),
            old(self).terms@[old(self).current as int] == Terminator::Open,
        ensures
            final(self).wf(),
            r.then_block == old(self).terms@.len(),
            has_else ==> r.else_block == r.then_block + 1 && r.merge == r.then_block + 2,
            !has_else ==> r.merge == r.then_block + 1 && r.else_block == r.merge,
            final(self).terms@.len() == r.merge + 1,
            final(self).terms@[old(self).current as int] == (Terminator::Branch {
                cond,
                then_block: r.then_block,
                else_block: r.else_block,
            }),
            forall|k: int| r.then_block <= k <= r.merge ==> final(self).terms@[k] == Terminator::Open,
            forall|k: int|
                0 <= k < old(self).terms@.len() && k != old(self).current ==> final(self).terms@[k]
                    == old(self).terms@[k],
            final(self).current == r.then_block,
    {
        let then_block = self.add_block();
        let else_block = if has_else {
            self.add_block()
        } else {
            then_block + 1
        };
        let merge = self.add_block();
        self.terminate(Terminator::Branch { cond, then_block, else_block });
        self.current = then_block;
        IfBlocks { then_block, else_block, merge }
    }

    /// Lowers the head of `loop { .. }`: the current block jumps to a new
    /// header, the header to a new body block, and a new exit block waits
    /// for the `break`s; lowering goes on in the body. The body ends with
    /// `terminate(Jump(header))`, and lowering resumes in `exit`.
    pub fn begin_loop(&mut self) -> (r: LoopBlocks)
        requires
            old(self).wf(),
            old(self).room(3),
            old(self).terms@[old(self).current as int] == Terminator::Open,
        ensures
            final(self).wf(),
            r.header == old(self).terms@.len(),
            r.body == r.header + 1,
            r.exit == r.header + 2,
            final(self).terms@.len() == r.exit + 1,
            final(self).terms@[old(self).current as int] == Terminator::Jump(r.header),
            final(self).terms@[r.header as int] == Terminator::Jump(r.body),
            final(self).terms@[r.body as int] == Terminator::Open,
            final(self).terms@[r.exit as int] == Terminator::Open,
            forall|k: int|
                0 <= k < old(self).terms@.len() && k != old(self).current ==> final(self).terms@[k]
                    == old(self).terms@[k],
            final(self).current == r.body,
    {
        let header = self.add_block();
        let body = self.add_block();
        let exit = self.add_block();
        self.terminate(Terminator::Jump(header));
        self.terms.set(header, Terminator::Jump(body));
        self.current = body;
        LoopBlocks { header, body, exit }
    }
}

/// Block `b` of `terms` ends by jumping to `target`.
pub open spec fn jumps_to(terms: Seq<Terminator>, b: int, target: usize) -> bool {
    terms[b] == Terminator::Jump(target)
}

/// Both arms of a lowered `if` that end by falling through reach the same
/// merge block: ending each open arm with a jump to the merge block, as
/// lowering does, leaves the branch in place and makes both jump there.
pub proof fn lemma_if_arms_merge(terms: Seq<Terminator>, entry: int, cond: usize, ib: IfBlocks)
    requires
        0 <= entry < terms.len(),
        ib.then_block < ib.else_block < ib.merge < terms.len(),
        entry != ib.then_block,
        entry != ib.else_block,
        terms[entry] == (Terminator::Branch { cond, then_block: ib.then_block, else_block: ib.else_block }),
    ensures
        ({
            let after = terms.update(ib.then_block as int, Terminator::Jump(ib.merge)).update(
                ib.else_block as int,
                Terminator::Jump(ib.merge),
            );
            &&& jumps_to(after, ib.then_block as int, ib.merge)
            &&& jumps_to(after, ib.else_block as int, ib.merge)
            &&& after[entry] == terms[entry]
        }),
{
}

} // verus!
