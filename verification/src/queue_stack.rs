//! A first-in-first-out queue, and a last-in-first-out stack built from two such queues.

use vstd::prelude::*;

verus! {

/// A first-in-first-out queue. Its view is the sequence of queued values, head first.
#[derive(Debug)]
pub struct Queue<T> {
    elements: Vec<T>,
}

impl<T> View for Queue<T> {
    type V = Seq<T>;

    closed spec fn view(&self) -> Seq<T> {
        self.elements@
    }
}

impl<T> Queue<T> {
    /// An empty queue.
    pub fn new() -> (q: Queue<T>)
        ensures
            q@ == Seq::<T>::empty(),
    {
        Queue { elements: Vec::new() }
    }

    /// Appends `value` at the tail.
    pub fn enqueue(&mut self, value: T)
        ensures
            final(self)@ == old(self)@.push(value),
    {
        self.elements.push(value)
    }

    /// Removes and returns the head; an empty queue is left as it is and reported.
    pub fn dequeue(&mut self) -> (r: Result<T, &str>)
        ensures
            old(self)@.len() > 0 ==> r == Ok::<T, &str>(old(self)@[0]) && final(self)@ == old(
                self,
            )@.drop_first(),
            old(self)@.len() == 0 ==> final(self)@ == old(self)@ && (r matches Err(e) && e@
                == "Queue is empty"@),
    {
        if !self.elements.is_empty() {
            Ok(self.elements.remove(0usize))
        } else {
            Err("Queue is empty")
        }
    }

    /// The head, without removing it.
    pub fn peek(&self) -> (r: Result<&T, &str>)
        ensures
            self@.len() > 0 ==> r == Ok::<&T, &str>(&self@[0]),
            self@.len() == 0 ==> (r matches Err(e) && e@ == "Queue is empty"@),
    {
        if self.elements.len() > 0 {
            Ok(&self.elements[0])
        } else {
            Err("Queue is empty")
        }
    }

    /// The number of queued values.
    pub fn size(&self) -> (n: usize)
        ensures
            n == self@.len(),
    {
        self.elements.len()
    }

    /// Whether nothing is queued.
    pub fn is_empty(&self) -> (b: bool)
        ensures
            b == (self@.len() == 0),
    {
        self.elements.is_empty()
    }
}

impl<T> Default for Queue<T> {
    fn default() -> (q: Queue<T>)
        ensures
            q@ == Seq::<T>::empty(),
    {
        Queue { elements: Vec::new() }
    }
}

/// A last-in-first-out stack held in two queues, of which at most one is in use at a time.
/// Its view is the sequence of stacked values, bottom first: the top is the last one.
pub struct MyStack<T> {
    primary: Queue<T>,
    secondary: Queue<T>,
}

impl<T> View for MyStack<T> {
    type V = Seq<T>;

    open spec fn view(&self) -> Seq<T> {
        self.primary() + self.secondary()
    }
}

impl<T> MyStack<T> {
    /// What the primary queue holds, head first. An empty stack takes its first value here.
    pub closed spec fn primary(&self) -> Seq<T> {
        self.primary@
    }

    /// What the secondary queue holds, head first.
    pub closed spec fn secondary(&self) -> Seq<T> {
        self.secondary@
    }

    /// At most one of the two queues holds anything.
    pub open spec fn wf(&self) -> bool {
        self.primary().len() == 0 || self.secondary().len() == 0
    }

    /// An empty stack.
    pub fn new() -> (s: Self)
        ensures
            s.wf(),
            s@ == Seq::<T>::empty(),
            s.primary() == Seq::<T>::empty(),
            s.secondary() == Seq::<T>::empty(),
    {
        Self { primary: Queue::<T>::new(), secondary: Queue::<T>::new() }
    }

    /// Puts `elem` on top: at the tail of the queue in use, or of the primary queue if the
    /// stack is empty.
    pub fn push(&mut self, elem: T)
        requires
            old(self).wf(),
        ensures
            final(self).wf(),
            final(self)@ == old(self)@.push(elem),
            final(self)@ == apply_op(old(self)@, StackOp::Push(elem)),
            old(self).secondary().len() > 0 ==> final(self).secondary() == old(
                self,
            ).secondary().push(elem) && final(self).primary() == old(self).primary(),
            old(self).secondary().len() == 0 ==> final(self).primary() == old(
                self,
            ).primary().push(elem) && final(self).secondary() == old(self).secondary(),
    {
        if !self.secondary.is_empty() {
            self.secondary.enqueue(elem)
        } else {
            self.primary.enqueue(elem)
        }
    }

    /// Takes the top off and returns it; an empty stack is left as it is and reported. All
    /// values but the top move, in order, from the queue in use to the other one, which is
    /// in use from then on.
    pub fn pop(&mut self) -> (r: Result<T, &str>)
        requires
            old(self).wf(),
        ensures
            final(self).wf(),
            final(self)@ == apply_op(old(self)@, StackOp::Pop),
            old(self)@.len() > 0 ==> r == Ok::<T, &str>(old(self)@.last()) && final(self)@ == old(
                self,
            )@.drop_last(),
            old(self)@.len() == 0 ==> final(self)@ == old(self)@ && (r matches Err(e) && e@
                == "Stack is empty"@),
            old(self).primary().len() > 0 ==> final(self).primary().len() == 0,
            old(self).secondary().len() > 0 ==> final(self).secondary().len() == 0,
    {
        if self.is_empty() {
            return Err("Stack is empty");
        }
        let ghost before = self@;
        let (src, dst) = if !self.primary.is_empty() {
            (&mut self.primary, &mut self.secondary)
        } else {
            (&mut self.secondary, &mut self.primary)
        };
        while src.size() > 1
            invariant
                src@.len() >= 1,
                dst@ + src@ == before,
            decreases src@.len(),
        {
            if let Ok(val) = src.dequeue() {
                dst.enqueue(val)
            }
        }
        return src.dequeue();
    }

    /// Whether nothing is stacked.
    pub fn is_empty(&self) -> (b: bool)
        ensures
            b == (self@.len() == 0),
    {
        return self.primary.is_empty() && self.secondary.is_empty();
    }
}

/// One operation on a stack.
pub enum StackOp<T> {
    /// Put the value on top.
    Push(T),
    /// Take the top off, if there is one.
    Pop,
}

/// The stack that `op` makes of the stack `s`: what `push` and `pop` leave behind.
pub open spec fn apply_op<T>(s: Seq<T>, op: StackOp<T>) -> Seq<T> {
    match op {
        StackOp::Push(value) => s.push(value),
        StackOp::Pop => if s.len() > 0 {
            s.drop_last()
        } else {
            s
        },
    }
}

/// The stack that the operations `ops`, made in order, leave of the stack `s`.
pub open spec fn apply_ops<T>(s: Seq<T>, ops: Seq<StackOp<T>>) -> Seq<T>
    decreases ops.len(),
{
    if ops.len() == 0 {
        s
    } else {
        apply_op(apply_ops(s, ops.drop_last()), ops.last())
    }
}

/// The number of pushes among `ops` that no later pop has taken back. A pop that finds
/// nothing to take back changes nothing.
pub open spec fn unmatched_pushes<T>(ops: Seq<StackOp<T>>) -> nat
    decreases ops.len(),
{
    if ops.len() == 0 {
        0
    } else {
        let before = unmatched_pushes(ops.drop_last());
        match ops.last() {
            StackOp::Push(_) => before + 1,
            StackOp::Pop => if before > 0 {
                (before - 1) as nat
            } else {
                0
            },
        }
    }
}

/// What `count` pops in a row leave of the stack `s`, together with the values they return,
/// the first one returned first. Pops stop short where the stack runs empty.
pub open spec fn pop_many<T>(s: Seq<T>, count: nat) -> (Seq<T>, Seq<T>)
    decreases count,
{
    if count == 0 || s.len() == 0 {
        (Seq::empty(), s)
    } else {
        let (popped, rest) = pop_many(s.drop_last(), (count - 1) as nat);
        (seq![s.last()] + popped, rest)
    }
}

/// The stack that pushing `items` in order makes of the stack `s`.
pub open spec fn push_many<T>(s: Seq<T>, items: Seq<T>) -> Seq<T>
    decreases items.len(),
{
    if items.len() == 0 {
        s
    } else {
        push_many(s, items.drop_last()).push(items.last())
    }
}

/// Pushing values one after the other stacks them in that order on what was there.
pub proof fn lemma_push_many_appends<T>(s: Seq<T>, items: Seq<T>)
    ensures
        push_many(s, items) == s + items,
    decreases items.len(),
{
    if items.len() > 0 {
        lemma_push_many_appends(s, items.drop_last());
        assert(s + items =~= (s + items.drop_last()).push(items.last()));
    } else {
        assert(s + items =~= s);
    }
}

/// Last in, first out: after any values have been pushed in order, as many pops return them
/// in the reverse order and leave the stack as it was before the pushes.
pub proof fn lemma_last_in_first_out<T>(s: Seq<T>, items: Seq<T>)
    ensures
        pop_many(push_many(s, items), items.len()) == (items.reverse(), s),
    decreases items.len(),
{
    lemma_push_many_appends(s, items);
    if items.len() > 0 {
        let fewer = items.drop_last();
        lemma_last_in_first_out(s, fewer);
        lemma_push_many_appends(s, fewer);
        assert((s + items).drop_last() =~= s + fewer);
        assert((s + items).last() == items.last());
        assert(seq![items.last()] + fewer.reverse() =~= items.reverse());
    } else {
        assert(items.reverse() =~= Seq::<T>::empty());
    }
}

/// After any operations on an empty stack, the stack holds as many values as there are
/// unmatched pushes; so it is empty exactly when there is none.
pub proof fn lemma_size_is_unmatched_pushes<T>(ops: Seq<StackOp<T>>)
    ensures
        apply_ops(Seq::<T>::empty(), ops).len() == unmatched_pushes(ops),
        apply_ops(Seq::<T>::empty(), ops).len() == 0 <==> unmatched_pushes(ops) == 0,
    decreases ops.len(),
{
    if ops.len() > 0 {
        lemma_size_is_unmatched_pushes(ops.drop_last());
    }
}

} // verus!
