use vstd::prelude::*;

use crate::array::{ArrSpec, NdArray};
use crate::error::EvalError;
use crate::op::OpKind;
use crate::tensor::Graph;

verus! {

/// First-match lookup in an association list of node-indexed values.
pub open spec fn lookup(s: Seq<(usize, ArrSpec)>, k: int) -> Option<ArrSpec>
    decreases s.len(),
{
    if s.len() == 0 {
        None
    } else if s[0].0 == k {
        Some(s[0].1)
    } else {
        lookup(s.skip(1), k)
    }
}

/// Every stored value is well-formed.
pub open spec fn store_wf(s: Seq<(usize, ArrSpec)>) -> bool {
    forall|i: int| 0 <= i < s.len() ==> (#[trigger] s[i].1).wf()
}

/// A found value in a well-formed store is well-formed.
pub proof fn lemma_lookup_wf(s: Seq<(usize, ArrSpec)>, k: int)
    requires
        store_wf(s),
    ensures
        lookup(s, k) matches Some(a) ==> a.wf(),
    decreases s.len(),
{
    if s.len() > 0 && s[0].0 != k {
        assert(forall|i: int| 0 <= i < s.skip(1).len() ==> (#[trigger] s.skip(1)[i].1).wf());
        lemma_lookup_wf(s.skip(1), k);
    }
}

/// What is necessary to run computation graphs: the persisted values of
/// variables and constants, and the per-evaluation values fed to
/// placeholders, both keyed by arena index.  A context is explicitly passed
/// state with a single writer per evaluation pass.
pub struct Context {
    pub variables: Vec<(usize, NdArray)>,
    pub feeds: Vec<(usize, NdArray)>,
}

impl Context {
    /// Model of the persisted variable/constant store.
    pub open spec fn vars_view(&self) -> Seq<(usize, ArrSpec)> {
        self.variables@.map_values(|p: (usize, NdArray)| (p.0, p.1@))
    }

    /// Model of the fed placeholder values.
    pub open spec fn feeds_view(&self) -> Seq<(usize, ArrSpec)> {
        self.feeds@.map_values(|p: (usize, NdArray)| (p.0, p.1@))
    }

    pub open spec fn wf(&self) -> bool {
        store_wf(self.vars_view()) && store_wf(self.feeds_view())
    }

    /// Creates a new, empty context.
    pub fn new() -> (c: Context)
        ensures
            c.vars_view() =~= Seq::<(usize, ArrSpec)>::empty(),
            c.feeds_view() =~= Seq::<(usize, ArrSpec)>::empty(),
            c.wf(),
    {
        let c = Context { variables: Vec::new(), feeds: Vec::new() };
        proof {
            assert(c.vars_view() =~= Seq::<(usize, ArrSpec)>::empty());
            assert(c.feeds_view() =~= Seq::<(usize, ArrSpec)>::empty());
        }
        c
    }

    /// Returns the arena indices of all variables registered in this
    /// context, in registration order.
    pub fn list_vars(&self) -> (r: Vec<usize>)
        ensures
            r@.len() == self.vars_view().len(),
            forall|i: int| 0 <= i < r@.len() ==> r@[i] == self.vars_view()[i].0,
    {
        let n = self.variables.len();
        let mut out: Vec<usize> = Vec::new();
        let mut i: usize = 0;
        while i < n
            invariant
                0 <= i <= n,
                n == self.variables@.len(),
                out@.len() == i,
                forall|j: int| 0 <= j < i ==> out@[j] == self.vars_view()[j].0,
            decreases n - i,
        {
            out.push(self.variables[i].0);
            i = i + 1;
        }
        out
    }

    /// Looks up a fed placeholder value.
    pub fn get_feed(&self, id: usize) -> (r: Option<&NdArray>)
        ensures
            match r {
                Some(a) => lookup(self.feeds_view(), id as int) == Some(a@),
                None => lookup(self.feeds_view(), id as int) is None,
            },
    {
        let n = self.feeds.len();
        let mut i: usize = 0;
        proof {
            assert(self.feeds_view().skip(0) =~= self.feeds_view());
        }
        while i < n
            invariant
                0 <= i <= n,
                n == self.feeds@.len(),
                lookup(self.feeds_view(), id as int) == lookup(
                    self.feeds_view().skip(i as int),
                    id as int,
                ),
            decreases n - i,
        {
            proof {
                assert(self.feeds_view().skip(i as int)[0] == self.feeds_view()[i as int]);
                assert(self.feeds_view().skip(i as int).skip(1) =~= self.feeds_view().skip(
                    i as int + 1,
                ));
            }
            if self.feeds[i].0 == id {
                return Some(&self.feeds[i].1);
            }
            i = i + 1;
        }
        proof {
            assert(self.feeds_view().skip(n as int).len() == 0);
        }
        None
    }

    /// Looks up a persisted variable or constant value.
    pub fn get_var(&self, id: usize) -> (r: Option<&NdArray>)
        ensures
            match r {
                Some(a) => lookup(self.vars_view(), id as int) == Some(a@),
                None => lookup(self.vars_view(), id as int) is None,
            },
    {
        let n = self.variables.len();
        let mut i: usize = 0;
        proof {
            assert(self.vars_view().skip(0) =~= self.vars_view());
        }
        while i < n
            invariant
                0 <= i <= n,
                n == self.variables@.len(),
                lookup(self.vars_view(), id as int) == lookup(
                    self.vars_view().skip(i as int),
                    id as int,
                ),
            decreases n - i,
        {
            proof {
                assert(self.vars_view().skip(i as int)[0] == self.vars_view()[i as int]);
                assert(self.vars_view().skip(i as int).skip(1) =~= self.vars_view().skip(
                    i as int + 1,
                ));
            }
            if self.variables[i].0 == id {
                return Some(&self.variables[i].1);
            }
            i = i + 1;
        }
        proof {
            assert(self.vars_view().skip(n as int).len() == 0);
        }
        None
    }

    /// Binds a value to a placeholder without checking it against the
    /// placeholder's declared shape.  Feeding a non-placeholder node is a
    /// usage error.
    pub fn feed_input_unchecked(&mut self, g: &Graph, placeholder: usize, arr: NdArray) -> (r:
        Result<(), EvalError>)
        requires
            old(self).wf(),
            arr.wf(),
        ensures
            r is Ok <==> (placeholder as int) < g@.len() && g@[placeholder as int].op
                is Placeholder,
            r is Ok ==> final(self).feeds_view() =~= seq![(placeholder, arr@)] + old(
                self,
            ).feeds_view() && final(self).variables == old(self).variables,
            r is Err ==> *final(self) == *old(self) && r == Err::<(), EvalError>(
                EvalError::NonPlaceholderFeed,
            ),
            final(self).wf(),
    {
        if placeholder >= g.len() {
            return Err(EvalError::NonPlaceholderFeed);
        }
        let is_ph = match g.nodes[placeholder].op {
            OpKind::Placeholder => true,
            _ => false,
        };
        proof {
            assert(g@[placeholder as int] == g.nodes@[placeholder as int]@);
        }
        if !is_ph {
            return Err(EvalError::NonPlaceholderFeed);
        }
        self.feeds.insert(0, (placeholder, arr));
        proof {
            assert(self.feeds_view() =~= seq![(placeholder, arr@)] + old(self).feeds_view());
        }
        Ok(())
    }

    /// Binds a value to a placeholder, checking it against the
    /// placeholder's declared shape when one was given.
    pub fn feed_input(&mut self, g: &Graph, placeholder: usize, arr: NdArray) -> (r: Result<
        (),
        EvalError,
    >)
        requires
            old(self).wf(),
            arr.wf(),
        ensures
            r is Ok <==> (placeholder as int) < g@.len() && g@[placeholder as int].op is Placeholder
                && (match g@[placeholder as int].shape {
                Some(s) => s == arr@.shape,
                None => true,
            }),
            r is Ok ==> final(self).feeds_view() =~= seq![(placeholder, arr@)] + old(
                self,
            ).feeds_view() && final(self).variables == old(self).variables,
            r is Err ==> *final(self) == *old(self),
            r matches Err(e) ==> (e == EvalError::ShapeMismatch <==> (placeholder as int)
                < g@.len() && g@[placeholder as int].op is Placeholder) && (e
                == EvalError::NonPlaceholderFeed || e == EvalError::ShapeMismatch),
            final(self).wf(),
    {
        if placeholder >= g.len() {
            return Err(EvalError::NonPlaceholderFeed);
        }
        let is_ph = match g.nodes[placeholder].op {
            OpKind::Placeholder => true,
            _ => false,
        };
        proof {
            assert(g@[placeholder as int] == g.nodes@[placeholder as int]@);
        }
        if !is_ph {
            return Err(EvalError::NonPlaceholderFeed);
        }
        match g.nodes[placeholder].shape {
            Some(ref s) => {
                if !crate::op::eq_dims(s, &arr.shape) {
                    return Err(EvalError::ShapeMismatch);
                }
            },
            None => {},
        }
        self.feeds.insert(0, (placeholder, arr));
        proof {
            assert(self.feeds_view() =~= seq![(placeholder, arr@)] + old(self).feeds_view());
        }
        Ok(())
    }

    /// Declares a variable: builds a new leaf node and persists its initial
    /// value in this context.
    pub fn variable(&mut self, g: &mut Graph, arr: NdArray) -> (id: usize)
        requires
            old(self).wf(),
            old(g).wf(),
            arr.wf(),
        ensures
            id as int == old(g)@.len(),
            final(g)@.len() == old(g)@.len() + 1,
            final(g)@ == old(g)@.push(final(g)@[id as int]),
            final(g)@[id as int].op is Variable,
            final(g)@[id as int].inputs.len() == 0,
            final(g).wf(),
            final(self).wf(),
            lookup(final(self).vars_view(), id as int) == Some(arr@),
            final(self).feeds == old(self).feeds,
    {
        let shape = arr.shape.clone();
        let id = g.leaf(OpKind::Variable, Some(shape));
        self.variables.insert(0, (id, arr));
        proof {
            assert(self.vars_view() =~= seq![(id, arr@)] + old(self).vars_view());
            assert(self.vars_view()[0] == (id, arr@));
        }
        id
    }

    /// Declares a constant: builds a new leaf node and persists its value
    /// in this context.
    pub fn constant(&mut self, g: &mut Graph, arr: NdArray) -> (id: usize)
        requires
            old(self).wf(),
            old(g).wf(),
            arr.wf(),
        ensures
            id as int == old(g)@.len(),
            final(g)@.len() == old(g)@.len() + 1,
            final(g)@ == old(g)@.push(final(g)@[id as int]),
            final(g)@[id as int].op is Constant,
            final(g)@[id as int].inputs.len() == 0,
            final(g).wf(),
            final(self).wf(),
            lookup(final(self).vars_view(), id as int) == Some(arr@),
            final(self).feeds == old(self).feeds,
    {
        let shape = arr.shape.clone();
        let id = g.leaf(OpKind::Constant, Some(shape));
        self.variables.insert(0, (id, arr));
        proof {
            assert(self.vars_view() =~= seq![(id, arr@)] + old(self).vars_view());
            assert(self.vars_view()[0] == (id, arr@));
        }
        id
    }
}

} // verus!
