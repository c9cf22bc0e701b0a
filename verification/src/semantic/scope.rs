//! Lexical scopes: symbols defined in a scope, and lookup through the
//! enclosing scopes.
use vstd::prelude::*;
use crate::text::{push_str, to_owned_string};

verus! {

/// A named entity with its type name and whether it may be assigned.
#[derive(Debug)]
pub struct Symbol {
    pub name: String,
    pub ty_name: String,
    pub mutable: bool,
    pub defined: bool,
}

impl Symbol {
    /// A copy of the symbol.
    pub fn duplicate(&self) -> (r: Symbol)
        ensures
            r.name@ == self.name@,
            r.ty_name@ == self.ty_name@,
            r.mutable == self.mutable,
            r.defined == self.defined,
    {
        Symbol {
            name: self.name.clone(),
            ty_name: self.ty_name.clone(),
            mutable: self.mutable,
            defined: self.defined,
        }
    }
}

/// A scope: the symbols defined in it, keyed by name, and the enclosing scope.
#[derive(Debug)]
pub struct Scope {
    symbols: Vec<(String, Symbol)>,
    parent: Option<Box<Scope>>,
}

/// The message of the error for a name defined twice in one scope.
pub open spec fn redefinition_message(name: Seq<char>) -> Seq<char> {
    "Symbol '"@ + name + "' already defined in current scope"@
}

/// The names a scope defines, each with its type name and whether it may be
/// assigned.
pub type Frame = Map<Seq<char>, (Seq<char>, bool)>;

/// What a name resolves to in nested scopes, the innermost last: the entry of
/// the innermost scope that defines it.
pub open spec fn frame_lookup(fr: Seq<Frame>, name: Seq<char>) -> Option<(Seq<char>, bool)>
    decreases fr.len(),
{
    if fr.len() == 0 {
        None
    } else if fr.last().dom().contains(name) {
        Some(fr.last()[name])
    } else {
        frame_lookup(fr.drop_last(), name)
    }
}

/// Nested scopes after defining a name in the innermost: refused when that
/// scope defines the name already.
pub open spec fn frame_define(fr: Seq<Frame>, name: Seq<char>, ty_name: Seq<char>, mutable: bool) -> Result<Seq<Frame>, Seq<char>> {
    if fr.last().dom().contains(name) {
        Err(redefinition_message(name))
    } else {
        Ok(fr.update(fr.len() - 1, fr.last().insert(name, (ty_name, mutable))))
    }
}

impl Scope {
    /// Whether the name is defined in this scope itself.
    pub closed spec fn defines(&self, name: Seq<char>) -> bool {
        exists|i: int| 0 <= i < self.symbols@.len() && (#[trigger] self.symbols@[i]).0@ == name
    }

    /// The index of the entry for `name` in this scope.
    closed spec fn local_index(&self, name: Seq<char>) -> int {
        choose|i: int| 0 <= i < self.symbols@.len() && (#[trigger] self.symbols@[i]).0@ == name
    }

    /// The symbol that `name` resolves to here: the one defined in this scope,
    /// else the one it resolves to in the enclosing scope.
    pub closed spec fn resolve(&self, name: Seq<char>) -> Option<Symbol>
        decreases self,
    {
        if self.defines(name) {
            Some(self.symbols@[self.local_index(name)].1)
        } else {
            match self.parent {
                Some(p) => p.resolve(name),
                None => None,
            }
        }
    }

    /// The names defined in this scope itself, with their type names and
    /// whether they may be assigned.
    pub closed spec fn local_map(&self) -> Frame {
        Map::new(
            |n: Seq<char>| self.defines(n),
            |n: Seq<char>| (self.symbols@[self.local_index(n)].1.ty_name@, self.symbols@[self.local_index(n)].1.mutable),
        )
    }

    /// The scopes from the outermost to this one, each by the names it defines.
    pub closed spec fn frames(&self) -> Seq<Frame>
        decreases self,
    {
        match self.parent {
            Some(p) => p.frames().push(self.local_map()),
            None => seq![self.local_map()],
        }
    }

    /// The frames end with this scope's own names, after those of the
    /// enclosing scopes.
    pub proof fn lemma_frames(&self)
        ensures
            self.frames().len() >= 1,
            self.frames().last() == self.local_map(),
            forall|n: Seq<char>| #[trigger] self.local_map().dom().contains(n) == self.defines(n),
            self.spec_parent() matches Some(p) ==> self.frames() == p.frames().push(self.local_map()),
            self.spec_parent() is None ==> self.frames() == seq![self.local_map()],
    {
    }

    /// Resolving a name in a scope is looking it up in its frames.
    pub proof fn lemma_resolve_frames(&self, name: Seq<char>)
        requires
            self.wf(),
        ensures
            self.resolve(name) matches Some(sym) ==> frame_lookup(self.frames(), name) == Some(
                (sym.ty_name@, sym.mutable),
            ),
            self.resolve(name) is None ==> frame_lookup(self.frames(), name) is None,
        decreases self,
    {
        self.lemma_frames();
        let fr = self.frames();
        if self.defines(name) {
            assert(fr.last().dom().contains(name));
        } else {
            match self.parent {
                Some(p) => {
                    p.lemma_resolve_frames(name);
                    assert(fr.drop_last() =~= p.frames());
                },
                None => {
                    assert(fr.drop_last() =~= Seq::<Frame>::empty());
                    assert(frame_lookup(Seq::<Frame>::empty(), name) is None);
                    assert(!fr.last().dom().contains(name));
                },
            }
        }
    }

    /// How many scopes enclose this one.
    pub closed spec fn depth(&self) -> nat
        decreases self,
    {
        match self.parent {
            Some(p) => 1 + p.depth(),
            None => 0,
        }
    }

    proof fn lemma_replace_local(a: Scope, b: Scope, i: int, v: Symbol)
        requires
            a.wf(),
            0 <= i < a.symbols@.len(),
            b.symbols@ == a.symbols@.update(i, (a.symbols@[i].0, v)),
            b.parent == a.parent,
        ensures
            b.wf(),
            b.resolve(a.symbols@[i].0@) == Some(v),
            forall|n: Seq<char>| #[trigger] b.defines(n) == a.defines(n),
            forall|n: Seq<char>| n != a.symbols@[i].0@ ==> #[trigger] b.resolve(n) == a.resolve(n),
    {
        assert forall|n: Seq<char>| #[trigger] b.defines(n) == a.defines(n) by {
            if a.defines(n) {
                let k = a.local_index(n);
                assert(b.symbols@[k].0 == a.symbols@[k].0);
            }
            if b.defines(n) {
                let k = b.local_index(n);
                assert(b.symbols@[k].0 == a.symbols@[k].0);
            }
        }
        assert(b.defines(a.symbols@[i].0@));
        let k = b.local_index(a.symbols@[i].0@);
        assert(b.symbols@[k].0 == a.symbols@[k].0);
        assert(k == i);
        assert forall|n: Seq<char>| n != a.symbols@[i].0@ implies #[trigger] b.resolve(n) == a.resolve(n) by {
            if a.defines(n) {
                let k1 = a.local_index(n);
                let k2 = b.local_index(n);
                assert(b.symbols@[k2].0 == a.symbols@[k2].0);
                assert(k1 == k2);
                assert(k1 != i);
            }
        }
    }

    /// The enclosing scope, if any.
    pub closed spec fn spec_parent(&self) -> Option<Scope> {
        match self.parent {
            Some(p) => Some(*p),
            None => None,
        }
    }

    /// Names are defined at most once in each scope.
    pub closed spec fn wf(&self) -> bool
        decreases self,
    {
        &&& forall|i: int, j: int|
            0 <= i < self.symbols@.len() && 0 <= j < self.symbols@.len() && i != j
                ==> (#[trigger] self.symbols@[i]).0@ != (#[trigger] self.symbols@[j]).0@
        &&& match self.parent {
            Some(p) => p.wf(),
            None => true,
        }
    }

    /// An empty scope with no enclosing scope.
    pub fn new() -> (r: Self)
        ensures
            r.wf(),
            r.spec_parent().is_none(),
            forall|n: Seq<char>| !r.defines(n),
            forall|n: Seq<char>| #[trigger] r.resolve(n).is_none(),
            r.frames() == seq![Map::<Seq<char>, (Seq<char>, bool)>::empty()],
    {
        let r = Scope { symbols: Vec::new(), parent: None };
        assert(r.local_map() =~= Map::<Seq<char>, (Seq<char>, bool)>::empty());
        r
    }

    /// An empty scope nested in `parent`.
    pub fn with_parent(parent: Scope) -> (r: Self)
        requires
            parent.wf(),
        ensures
            r.wf(),
            r.spec_parent() == Some(parent),
            forall|n: Seq<char>| !r.defines(n),
            forall|n: Seq<char>| #[trigger] r.resolve(n) == parent.resolve(n),
            r.frames() == parent.frames().push(Map::<Seq<char>, (Seq<char>, bool)>::empty()),
    {
        let r = Scope { symbols: Vec::new(), parent: Some(Box::new(parent)) };
        assert(r.local_map() =~= Map::<Seq<char>, (Seq<char>, bool)>::empty());
        r
    }

    fn find_local(&self, name: &str) -> (r: Option<usize>)
        requires
            self.wf(),
        ensures
            match r {
                Some(i) => i < self.symbols@.len() && self.symbols@[i as int].0@ == name@
                    && self.defines(name@) && self.local_index(name@) == i,
                None => !self.defines(name@),
            },
    {
        let key = to_owned_string(name);
        let mut i: usize = 0;
        while i < self.symbols.len()
            invariant
                self.wf(),
                i <= self.symbols@.len(),
                key@ == name@,
                forall|k: int| 0 <= k < i ==> (#[trigger] self.symbols@[k]).0@ != name@,
            decreases self.symbols.len() - i,
        {
            if self.symbols[i].0 == key {
                proof {
                    assert(self.defines(name@));
                    let j = self.local_index(name@);
                    assert(self.symbols@[j].0@ == name@);
                    assert(j == i as int);
                }
                return Some(i);
            }
            i = i + 1;
        }
        None
    }

    /// Defines `name` in this scope. A name already defined in this scope (not
    /// an enclosing one) is refused with an error naming it.
    pub fn define(&mut self, name: &str, ty_name: &str, mutable: bool) -> (r: Result<(), String>)
        requires
            old(self).wf(),
        ensures
            final(self).wf(),
            final(self).spec_parent() == old(self).spec_parent(),
            r is Ok <==> !old(self).defines(name@),
            r matches Err(m) ==> m@ == redefinition_message(name@) && *final(self) == *old(self),
            match frame_define(old(self).frames(), name@, ty_name@, mutable) {
                Ok(f) => r is Ok && final(self).frames() == f,
                Err(m) => r matches Err(x) && x@ == m,
            },
            r is Ok ==> {
                &&& final(self).defines(name@)
                &&& final(self).resolve(name@) matches Some(s)
                &&& s.name@ == name@
                &&& s.ty_name@ == ty_name@
                &&& s.mutable == mutable
                &&& s.defined
                &&& forall|n: Seq<char>| n != name@ ==> #[trigger] final(self).resolve(n) == old(self).resolve(n)
                    && final(self).defines(n) == old(self).defines(n)
            },
    {
        match self.find_local(name) {
            Some(_) => {
                let mut m = to_owned_string("Symbol '");
                push_str(&mut m, name);
                push_str(&mut m, "' already defined in current scope");
                Err(m)
            },
            None => {
                let ghost old_s = *self;
                let sym = Symbol {
                    name: to_owned_string(name),
                    ty_name: to_owned_string(ty_name),
                    mutable,
                    defined: true,
                };
                self.symbols.push((to_owned_string(name), sym));
                let ghost last = self.symbols@.len() - 1;
                proof {
                assert(self.symbols@[last].0@ == name@);
                assert(self.defines(name@));
                assert forall|n: Seq<char>| n != name@ implies #[trigger] self.resolve(n) == old_s.resolve(n)
                    && self.defines(n) == old_s.defines(n) by {
                    if old_s.defines(n) {
                        let i = old_s.local_index(n);
                        assert(self.symbols@[i] == old_s.symbols@[i]);
                        assert(self.defines(n));
                        let j = self.local_index(n);
                        assert(j != last);
                        assert(self.symbols@[j] == old_s.symbols@[j]);
                    }
                    if self.defines(n) {
                        let j = self.local_index(n);
                        assert(j != last);
                        assert(old_s.symbols@[j] == self.symbols@[j]);
                    }
                }
                let k = self.local_index(name@);
                assert(k == last);
                old_s.lemma_frames();
                self.lemma_frames();
                let want = old_s.local_map().insert(name@, (ty_name@, mutable));
                assert forall|n: Seq<char>| #[trigger] self.local_map().dom().contains(n) == want.dom().contains(n) by {
                    if n != name@ {
                        assert(self.resolve(n) == old_s.resolve(n));
                        assert(self.defines(n) == old_s.defines(n));
                    }
                }
                assert forall|n: Seq<char>| self.local_map().dom().contains(n) implies #[trigger] self.local_map()[n] == want[n] by {
                    if n != name@ {
                        let j = self.local_index(n);
                        assert(j != last);
                        assert(self.symbols@[j] == old_s.symbols@[j]);
                        let i0 = old_s.local_index(n);
                        assert(self.symbols@[i0] == old_s.symbols@[i0]);
                        assert(i0 == j);
                    }
                }
                assert(self.local_map() =~= want);
                assert(self.frames() =~= old_s.frames().update(old_s.frames().len() - 1, want));
                }
                Ok(())
            },
        }
    }

    /// Detaches the enclosing scope and returns it.
    pub fn take_parent(&mut self) -> (r: Option<Scope>)
        requires
            old(self).wf(),
        ensures
            r == old(self).spec_parent(),
            r matches Some(p) ==> p.wf(),
            final(self).wf(),
            final(self).spec_parent() is None,
            forall|n: Seq<char>| #[trigger] final(self).defines(n) == old(self).defines(n),
            final(self).local_map() == old(self).local_map(),
    {
        let p = self.parent.take();
        proof {
            assert(self.symbols@ == old(self).symbols@);
            assert forall|n: Seq<char>| #[trigger] self.defines(n) == old(self).defines(n) by {
                if old(self).defines(n) {
                    let i = choose|i: int| 0 <= i < old(self).symbols@.len() && (#[trigger] old(self).symbols@[i]).0@ == n;
                    assert(self.symbols@[i] == old(self).symbols@[i]);
                }
            }
            assert(self.local_map() =~= old(self).local_map());
        }
        match p {
            Some(b) => Some(*b),
            None => None,
        }
    }

    /// The symbol that `name` resolves to: defined here, or in the nearest
    /// enclosing scope that defines it.
    pub fn lookup(&self, name: &str) -> (r: Option<&Symbol>)
        requires
            self.wf(),
        ensures
            match self.resolve(name@) {
                Some(s) => r == Some(&s),
                None => r.is_none(),
            },
        decreases self,
    {
        match self.find_local(name) {
            Some(i) => Some(&self.symbols[i].1),
            None => match &self.parent {
                Some(p) => p.lookup(name),
                None => None,
            },
        }
    }

    /// Like `lookup`, but the symbol may be changed in place.
    pub fn lookup_mut(&mut self, name: &str) -> (r: Option<&mut Symbol>)
        requires
            old(self).wf(),
        ensures
            match old(self).resolve(name@) {
                Some(s) => {
                    &&& r matches Some(m)
                    &&& *m == s
                    &&& final(self).resolve(name@) == Some(*final(m))
                },
                None => r.is_none() && *final(self) == *old(self),
            },
            final(self).wf(),
            forall|n: Seq<char>| #[trigger] final(self).defines(n) == old(self).defines(n),
            forall|n: Seq<char>| n != name@ ==> #[trigger] final(self).resolve(n) == old(self).resolve(n),
        decreases old(self).depth(),
    {
        match self.find_local(name) {
            Some(i) => {
                let ghost old_s = *self;
                let entry = &mut self.symbols[i];
                let r = &mut entry.1;
                proof {
                    Self::lemma_replace_local(old_s, after_borrow(*self), i as int, *final(r));
                }
                Some(r)
            },
            None => {
                let ghost old_s = *self;
                match &mut self.parent {
                    Some(p) => {
                        let r = p.lookup_mut(name);
                        proof {
                            let b = after_borrow(*self);
                            assert(b.symbols == old_s.symbols);
                            let pb = after_borrow(self.parent);
                            assert(b.parent == pb);
                            assert(pb is Some);
                            assert forall|n: Seq<char>| n != name@ implies #[trigger] b.resolve(n) == old_s.resolve(n) by {
                                assert(b.defines(n) == old_s.defines(n));
                                assert(pb.unwrap().resolve(n) == old_s.parent.unwrap().resolve(n));
                            }
                        }
                        r
                    },
                    None => None,
                }
            },
        }
    }
}

} // verus!
