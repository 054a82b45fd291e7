use vstd::prelude::*;

verus! {

/// What a name is bound to: the storage slot it names and whether it may
/// be assigned.
#[derive(Clone, Copy, Debug, PartialEq, Eq, Structural)]
pub struct Binding {
    pub slot: usize,
    pub mutable: bool,
}

/// Why an assignment to a name was refused.
#[derive(Clone, Copy, Debug, PartialEq, Eq, Structural)]
pub enum ScopeError {
    UndefinedName,
    AssignToImmutable,
}

/// The binding of the latest declaration of `name` in `entries`, if any.
pub open spec fn resolve(entries: Seq<(Seq<u8>, Binding)>, name: Seq<u8>) -> Option<Binding>
    decreases entries.len(),
{
    if entries.len() == 0 {
        None
    } else if entries.last().0 == name {
        Some(entries.last().1)
    } else {
        resolve(entries.drop_last(), name)
    }
}

/// A stack of lexical scopes. Declarations are kept in order; each scope
/// remembers where its own declarations begin, so that leaving it drops
/// them and uncovers whatever they shadowed.
pub struct Scopes {
    names: Vec<Vec<u8>>,
    bindings: Vec<Binding>,
    marks: Vec<usize>,
}

impl Scopes {
    /// The declarations still visible, oldest first.
    pub closed spec fn entries(&self) -> Seq<(Seq<u8>, Binding)> {
        Seq::new(self.names@.len(), |k: int| (self.names@[k]@, self.bindings@[k]))
    }

    /// How many scopes are open above the outermost one.
    pub closed spec fn depth(&self) -> nat {
        self.marks@.len()
    }

    /// Where the declarations of each open scope begin.
    pub closed spec fn marks(&self) -> Seq<usize> {
        self.marks@
    }

    pub closed spec fn wf(&self) -> bool {
        &&& self.names@.len() == self.bindings@.len()
        &&& forall|k: int| 0 <= k < self.marks@.len() ==> self.marks@[k] <= self.names@.len()
        &&& forall|a: int, b: int|
            0 <= a <= b < self.marks@.len() ==> self.marks@[a] <= self.marks@[b]
    }

    /// The binding that `name` resolves to here.
    pub open spec fn lookup_spec(&self, name: Seq<u8>) -> Option<Binding> {
        resolve(self.entries(), name)
    }

    /// An empty outermost scope.
    pub fn new() -> (r: Scopes)
        ensures
            r.wf(),
            r.entries() == Seq::<(Seq<u8>, Binding)>::empty(),
            r.depth() == 0,
    {
        let r = Scopes { names: Vec::new(), bindings: Vec::new(), marks: Vec::new() };
        assert(r.entries() =~= Seq::<(Seq<u8>, Binding)>::empty());
        r
    }

    /// Opens a scope (a block, a function body or a loop body).
    pub fn push_scope(&mut self)
        requires
            old(self).wf(),
        ensures
            final(self).wf(),
            final(self).entries() == old(self).entries(),
            final(self).depth() == old(self).depth() + 1,
            final(self).marks() == old(self).marks().push(old(self).entries().len() as usize),
    {
        let at = self.names.len();
        self.marks.push(at);
        assert(self.entries() =~= old(self).entries());
    }

    /// Closes the innermost scope, dropping its declarations; a call with
    /// no open scope changes nothing.
    pub fn pop_scope(&mut self)
        requires
            old(self).wf(),
        ensures
            final(self).wf(),
            old(self).depth() == 0 ==> final(self).entries() == old(self).entries(),
            old(self).depth() == 0 ==> final(self).marks() == old(self).marks(),
            old(self).depth() > 0 ==> {
                &&& final(self).depth() == old(self).depth() - 1
                &&& final(self).marks() == old(self).marks().drop_last()
                &&& final(self).entries() == old(self).entries().take(
                    old(self).marks().last() as int,
                )
            },
    {
        if self.marks.len() == 0 {
            return;
        }
        let at = self.marks[self.marks.len() - 1];
        self.marks.pop();
        self.names.truncate(at);
        self.bindings.truncate(at);
        assert(self.entries() =~= old(self).entries().take(at as int));
        assert(self.marks@ =~= old(self).marks@.drop_last());
    }

    /// Declares `name` in the innermost scope; an earlier binding of the
    /// same name is hidden, not destroyed.
    pub fn declare(&mut self, name: Vec<u8>, binding: Binding)
        requires
            old(self).wf(),
        ensures
            final(self).wf(),
            final(self).entries() == old(self).entries().push((name@, binding)),
            final(self).depth() == old(self).depth(),
            final(self).marks() == old(self).marks(),
    {
        self.names.push(name);
        self.bindings.push(binding);
        assert(self.entries() =~= old(self).entries().push((name@, binding)));
    }

    /// The binding that `name` resolves to: its latest declaration that
    /// is still visible.
    pub fn lookup(&self, name: &Vec<u8>) -> (r: Option<Binding>)
        requires
            self.wf(),
        ensures
            r == self.lookup_spec(name@),
    {
        let mut k: usize = self.names.len();
        assert(self.entries().take(k as int) =~= self.entries());
        while k > 0
            invariant
                self.wf(),
                k <= self.names@.len(),
                resolve(self.entries(), name@) == resolve(self.entries().take(k as int), name@),
            decreases k,
        {
            let ghost pre = self.entries().take(k as int);
            assert(pre.drop_last() =~= self.entries().take(k - 1));
            if bytes_equal(&self.names[k - 1], name) {
                return Some(self.bindings[k - 1]);
            }
            k = k - 1;
        }
        assert(self.entries().take(0) =~= Seq::<(Seq<u8>, Binding)>::empty());
        None
    }

    /// The slot that an assignment to `name` writes, or why it is refused.
    pub fn assign_target(&self, name: &Vec<u8>) -> (r: Result<usize, ScopeError>)
        requires
            self.wf(),
        ensures
            self.lookup_spec(name@) is None <==> r == Err::<usize, ScopeError>(
                ScopeError::UndefinedName,
            ),
            (self.lookup_spec(name@) is Some && !self.lookup_spec(name@).unwrap().mutable) <==> r
                == Err::<usize, ScopeError>(ScopeError::AssignToImmutable),
            r is Ok <==> (self.lookup_spec(name@) is Some && self.lookup_spec(name@).unwrap().mutable),
            r is Ok ==> r.unwrap() == self.lookup_spec(name@).unwrap().slot,
    {
        match self.lookup(name) {
            None => Err(ScopeError::UndefinedName),
            Some(b) => {
                if b.mutable {
                    Ok(b.slot)
                } else {
                    Err(ScopeError::AssignToImmutable)
                }
            },
        }
    }
}

/// Whether two byte strings are equal.
pub fn bytes_equal(a: &Vec<u8>, b: &Vec<u8>) -> (r: bool)
    ensures
        r == (a@ == b@),
{
    if a.len() != b.len() {
        return false;
    }
    let mut i: usize = 0;
    while i < a.len()
        invariant
            a@.len() == b@.len(),
            i <= a@.len(),
            forall|k: int| 0 <= k < i ==> a@[k] == b@[k],
        decreases a@.len() - i,
    {
        if a[i] != b[i] {
            return false;
        }
        i = i + 1;
    }
    assert(a@ =~= b@);
    true
}

/// A declaration shadows: right after it, its name resolves to the new
/// binding, and every other name resolves as before.
pub proof fn lemma_declare_shadows(
    entries: Seq<(Seq<u8>, Binding)>,
    name: Seq<u8>,
    binding: Binding,
    other: Seq<u8>,
)
    requires
        other != name,
    ensures
        resolve(entries.push((name, binding)), name) == Some(binding),
        resolve(entries.push((name, binding)), other) == resolve(entries, other),
{
    assert(entries.push((name, binding)).drop_last() =~= entries);
}

/// Shadowed bindings are hidden, not destroyed: declarations made inside a
/// scope vanish when it closes, and every name resolves again as it did
/// before the scope opened.
pub proof fn lemma_scope_exit_restores(
    outer: Seq<(Seq<u8>, Binding)>,
    inner: Seq<(Seq<u8>, Binding)>,
    name: Seq<u8>,
)
    ensures
        resolve((outer + inner).take(outer.len() as int), name) == resolve(outer, name),
{
    assert((outer + inner).take(outer.len() as int) =~= outer);
}

/// A name resolves to its latest visible declaration: declarations of
/// other names made after it do not hide it.
pub proof fn lemma_latest_declaration_wins(
    entries: Seq<(Seq<u8>, Binding)>,
    name: Seq<u8>,
    binding: Binding,
    later: Seq<(Seq<u8>, Binding)>,
)
    requires
        forall|k: int| 0 <= k < later.len() ==> (#[trigger] later[k]).0 != name,
    ensures
        resolve(entries.push((name, binding)) + later, name) == Some(binding),
    decreases later.len(),
{
    let all = entries.push((name, binding)) + later;
    if later.len() == 0 {
        assert(all =~= entries.push((name, binding)));
    } else {
        let shorter = later.drop_last();
        assert(all.drop_last() =~= entries.push((name, binding)) + shorter);
        assert(all.last() == later[later.len() - 1]);
        lemma_latest_declaration_wins(entries, name, binding, shorter);
    }
}

} // verus!
