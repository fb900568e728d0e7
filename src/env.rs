//! The environment of a run: named variables and a value stack.
use vstd::prelude::*;
use crate::value::{Fault, RuntimeError, Value, ValueV};

verus! {

/// Variables, each name bound once, and a last-in-first-out stack of values.
pub struct Env {
    store: Vec<(String, Value)>,
    stack: Vec<Value>,
    vars: Ghost<Map<Seq<char>, ValueV>>,
}

impl Env {
    /// The variables, by name.
    pub closed spec fn vars(&self) -> Map<Seq<char>, ValueV> {
        self.vars@
    }

    /// The stack, bottom first.
    pub closed spec fn stack(&self) -> Seq<ValueV> {
        self.stack@.map_values(|v: Value| v@)
    }

    pub closed spec fn wf(&self) -> bool {
        &&& forall|i: int, j: int|
            0 <= i < j < self.store@.len() ==> #[trigger] self.store@[i].0@
                != #[trigger] self.store@[j].0@
        &&& forall|i: int|
            0 <= i < self.store@.len() ==> self.vars@.contains_key(#[trigger] self.store@[i].0@)
                && self.vars@[self.store@[i].0@] == self.store@[i].1@
        &&& forall|k: Seq<char>|
            #[trigger] self.vars@.contains_key(k) ==> exists|i: int|
                0 <= i < self.store@.len() && #[trigger] self.store@[i].0@ == k
    }

    pub fn new() -> (r: Self)
        ensures
            r.wf(),
            r.vars() == Map::<Seq<char>, ValueV>::empty(),
            r.stack() == Seq::<ValueV>::empty(),
    {
        let r = Env { store: Vec::new(), stack: Vec::new(), vars: Ghost(Map::empty()) };
        assert(r.stack() =~= Seq::<ValueV>::empty());
        r
    }

    /// Binds `name` to `value`, replacing an earlier binding.
    pub fn set(&mut self, name: String, value: Value)
        requires
            old(self).wf(),
        ensures
            final(self).wf(),
            final(self).vars() == old(self).vars().insert(name@, value@),
            final(self).stack() == old(self).stack(),
    {
        let ghost old_store = self.store@;
        let ghost key = name@;
        let ghost val = value@;
        let mut i: usize = 0;
        while i < self.store.len()
            invariant
                0 <= i <= self.store@.len(),
                self.store@ == old_store,
                old_store == old(self).store@,
                self.vars@ == old(self).vars@,
                self.stack@ == old(self).stack@,
                old(self).wf(),
                key == name@,
                val == value@,
                forall|j: int| 0 <= j < i ==> #[trigger] self.store@[j].0@ != key,
            decreases self.store@.len() - i,
        {
            if self.store[i].0 == name {
                self.store.set(i, (name, value));
                self.vars = Ghost(self.vars@.insert(key, val));
                proof {
                    assert forall|k: Seq<char>| #[trigger]
                        self.vars@.contains_key(k) implies exists|j: int|
                            0 <= j < self.store@.len() && #[trigger] self.store@[j].0@ == k by {
                        if k != key {
                            let j = choose|j: int|
                                0 <= j < old_store.len() && #[trigger] old_store[j].0@ == k;
                            assert(self.store@[j].0@ == k);
                        } else {
                            assert(self.store@[i as int].0@ == k);
                        }
                    }
                }
                return;
            }
            i = i + 1;
        }
        self.store.push((name, value));
        self.vars = Ghost(self.vars@.insert(key, val));
        proof {
            assert forall|k: Seq<char>| #[trigger]
                self.vars@.contains_key(k) implies exists|j: int|
                    0 <= j < self.store@.len() && #[trigger] self.store@[j].0@ == k by {
                if k != key {
                    let j = choose|j: int|
                        0 <= j < old_store.len() && #[trigger] old_store[j].0@ == k;
                    assert(self.store@[j].0@ == k);
                } else {
                    assert(self.store@[old_store.len() as int].0@ == k);
                }
            }
        }
    }

    /// The value bound to `name`, or an error naming it.
    pub fn get(&self, name: &String) -> (r: Result<Value, RuntimeError>)
        requires
            self.wf(),
        ensures
            self.vars().contains_key(name@) ==> (r matches Ok(v) && v@ == self.vars()[name@]),
            !self.vars().contains_key(name@) ==> (r matches Err(e) && e@ == Fault::Undefined(
                name@,
            )),
    {
        let mut i: usize = 0;
        while i < self.store.len()
            invariant
                0 <= i <= self.store@.len(),
                self.wf(),
                forall|j: int| 0 <= j < i ==> #[trigger] self.store@[j].0@ != name@,
            decreases self.store@.len() - i,
        {
            if self.store[i].0 == *name {
                return Ok(self.store[i].1.duplicate());
            }
            i = i + 1;
        }
        Err(RuntimeError::Undefined(name.clone()))
    }

    /// Puts `value` on top of the stack.
    pub fn push(&mut self, value: Value)
        requires
            old(self).wf(),
        ensures
            final(self).wf(),
            final(self).vars() == old(self).vars(),
            final(self).stack() == old(self).stack().push(value@),
    {
        self.stack.push(value);
        assert(self.stack() =~= old(self).stack().push(value@));
        assert(self.store@ == old(self).store@ && self.vars@ == old(self).vars@);
    }

    /// Takes the top value off the stack.
    pub fn pop(&mut self) -> (r: Result<Value, RuntimeError>)
        requires
            old(self).wf(),
        ensures
            final(self).wf(),
            final(self).vars() == old(self).vars(),
            old(self).stack().len() > 0 ==> {
                &&& r matches Ok(v) && v@ == old(self).stack().last()
                &&& final(self).stack() == old(self).stack().drop_last()
            },
            old(self).stack().len() == 0 ==> {
                &&& r matches Err(e) && e@ == Fault::EmptyStack
                &&& final(self).stack() == old(self).stack()
            },
    {
        let r = self.stack.pop();
        assert(self.store@ == old(self).store@ && self.vars@ == old(self).vars@);
        match r {
            Some(v) => {
                assert(self.stack() =~= old(self).stack().drop_last());
                Ok(v)
            },
            None => Err(RuntimeError::EmptyStack),
        }
    }
}

} // verus!
