use vstd::prelude::*;

verus! {

/// A size-tracked LIFO stack. The top of the stack is the last element of the
/// underlying vector, and the view of the stack is that vector's view.
///
/// The size counter always agrees with the number of elements actually held,
/// and `pop`/`peek` on an empty stack report absence instead of faulting.
pub struct Stack<T> {
    size: usize,
    data: Vec<T>,
}

impl<T> View for Stack<T> {
    type V = Seq<T>;

    closed spec fn view(&self) -> Seq<T> {
        self.data@
    }
}

impl<T> Stack<T> {
    /// The reported size equals the number of elements physically held.
    pub closed spec fn wf(&self) -> bool {
        self.size == self.data@.len()
    }

    pub fn new() -> (s: Self)
        ensures
            s.wf(),
            s@ == Seq::<T>::empty(),
    {
        Self { size: 0, data: Vec::new() }
    }

    pub fn is_empty(&self) -> (r: bool)
        requires
            self.wf(),
        ensures
            r <==> self@.len() == 0,
    {
        self.size == 0
    }

    pub fn len(&self) -> (n: usize)
        requires
            self.wf(),
        ensures
            n == self@.len(),
    {
        self.size
    }

    pub fn clear(&mut self)
        ensures
            final(self).wf(),
            final(self)@ == Seq::<T>::empty(),
    {
        self.size = 0;
        self.data.clear();
    }

    pub fn push(&mut self, val: T)
        requires
            old(self).wf(),
            old(self)@.len() < usize::MAX,
        ensures
            final(self).wf(),
            final(self)@ == old(self)@.push(val),
    {
        self.data.push(val);
        self.size += 1;
    }

    /// Removes and returns the top element, or `None` when the stack is empty.
    pub fn pop(&mut self) -> (r: Option<T>)
        requires
            old(self).wf(),
        ensures
            final(self).wf(),
            old(self)@.len() == 0 ==> r is None && final(self)@ == old(self)@,
            old(self)@.len() > 0 ==> r == Some(old(self)@.last()) && final(self)@ == old(
                self,
            )@.drop_last(),
    {
        if 0 == self.size {
            return None;
        }
        self.size -= 1;
        self.data.pop()
    }

    /// Returns a reference to the top element, or `None` when the stack is empty.
    pub fn peek(&self) -> (r: Option<&T>)
        requires
            self.wf(),
        ensures
            self@.len() == 0 ==> r is None,
            self@.len() > 0 ==> r is Some && *r.unwrap() == self@.last(),
    {
        if 0 == self.size {
            return None;
        }
        Some(&self.data[self.size - 1])
    }

    /// Returns a mutable reference to the top element, or `None` when the
    /// stack is empty.
    pub fn peek_mut(&mut self) -> (r: Option<&mut T>)
        requires
            old(self).wf(),
        ensures
            final(self).wf(),
            old(self)@.len() == 0 ==> r is None && final(self)@ == old(self)@,
            old(self)@.len() > 0 ==> r is Some && *r.unwrap() == old(self)@.last() && final(self)@
                == old(self)@.update(old(self)@.len() - 1, *final(r.unwrap())),
    {
        if 0 == self.size {
            return None;
        }
        let i = self.size - 1;
        Some(&mut self.data[i])
    }

    /// Ownership-consuming traversal: drains the stack completely and returns
    /// its elements in top-to-bottom order.
    pub fn into_iter(self) -> (r: Vec<T>)
        requires
            self.wf(),
        ensures
            r@ == self@.reverse(),
    {
        let ghost s0 = self@;
        let mut s = self;
        let mut out: Vec<T> = Vec::new();
        while !s.is_empty()
            invariant
                s.wf(),
                s@ + out@.reverse() == s0,
            decreases s@.len(),
        {
            let ghost prev = s@;
            let v = s.pop().unwrap();
            out.push(v);
            proof {
                assert(out@.reverse() =~= seq![prev.last()] + out@.drop_last().reverse());
                assert(s@ + out@.reverse() =~= prev + out@.drop_last().reverse());
            }
        }
        proof {
            assert(out@ =~= s0.reverse());
        }
        out
    }

    /// Non-consuming traversal: returns references to the elements in
    /// top-to-bottom order, leaving the stack unchanged.
    pub fn iter(&self) -> (r: Vec<&T>)
        requires
            self.wf(),
        ensures
            r@.len() == self@.len(),
            forall|i: int| 0 <= i < r@.len() ==> *r@[i] == self@[self@.len() - 1 - i],
    {
        let n = self.size;
        let mut out: Vec<&T> = Vec::new();
        let mut k: usize = 0;
        while k < n
            invariant
                self.wf(),
                n == self@.len(),
                k <= n,
                out@.len() == k,
                forall|i: int| 0 <= i < k ==> *out@[i] == self@[self@.len() - 1 - i],
            decreases n - k,
        {
            out.push(&self.data[n - 1 - k]);
            k += 1;
        }
        out
    }

    /// Law: after any sequence of operations, the reported length equals the
    /// number of elements a full drain retrieves, and a drained stack reports
    /// absence on a further `pop`.
    pub fn drain_matches_len(self) -> (ok: bool)
        requires
            self.wf(),
        ensures
            ok,
    {
        let mut s = self;
        let n = s.len();
        let mut count: usize = 0;
        while !s.is_empty()
            invariant
                s.wf(),
                count + s@.len() == n,
            decreases s@.len(),
        {
            let _popped = s.pop();
            count += 1;
        }
        let drained = s.pop();
        count == n && drained.is_none()
    }

    /// Law: `pop` and `peek` on a freshly created stack report absence and
    /// never fault.
    pub fn empty_queries_absent() -> (ok: bool)
        ensures
            ok,
    {
        let mut s: Stack<T> = Stack::new();
        let peeked_absent = match s.peek() {
            None => true,
            Some(_) => false,
        };
        let popped_absent = match s.pop() {
            None => true,
            Some(_) => false,
        };
        peeked_absent && popped_absent
    }
}

} // verus!
