use vstd::prelude::*;

use crate::ttype::typevar::TypeVarStore;
use crate::ttype::{
    unify_ty, unify_view, var_free, vars_below, Ty, TyErr, Type, TypeError,
};

verus! {

/// A named binding: its type and whether it may be re-assigned.
#[derive(Debug)]
pub struct Symbol {
    mutable: bool,
    s_type: Type,
}

impl Symbol {
    fn new(s_type: Type, mutable: bool) -> (r: Symbol)
        ensures
            r.mutable == mutable,
            r.s_type == s_type,
    {
        Symbol { mutable, s_type }
    }

    /// The type of the binding.
    pub fn symbol_type(&self) -> (r: &Type)
        ensures
            r@ == self@.1,
    {
        &self.s_type
    }

    /// Whether the binding may be re-assigned.
    pub fn is_mutable(&self) -> (r: bool)
        ensures
            r == self@.0,
    {
        self.mutable
    }
}

impl View for Symbol {
    type V = (bool, Ty);

    closed spec fn view(&self) -> (bool, Ty) {
        (self.mutable, self.s_type@)
    }
}

/// The models of the bindings of a symbol table, in insertion order.
pub closed spec fn entries_of(v: Seq<(String, Symbol)>) -> Seq<(Seq<char>, (bool, Ty))> {
    Seq::new(v.len(), |i: int| (v[i].0@, v[i].1@))
}

/// The map that a sequence of bindings denotes; a later binding of a name
/// shadows an earlier one.
pub open spec fn stab_map(e: Seq<(Seq<char>, (bool, Ty))>) -> Map<Seq<char>, (bool, Ty)>
    decreases e.len(),
{
    if e.len() == 0 {
        Map::empty()
    } else {
        stab_map(e.drop_last()).insert(e.last().0, e.last().1)
    }
}

proof fn lemma_stab_map_get(e: Seq<(Seq<char>, (bool, Ty))>, i: int)
    requires
        forall|m: int, n: int| 0 <= m < n < e.len() ==> (#[trigger] e[m]).0 != (#[trigger] e[n]).0,
        0 <= i < e.len(),
    ensures
        stab_map(e).contains_key(e[i].0),
        stab_map(e)[e[i].0] == e[i].1,
    decreases e.len(),
{
    if i + 1 < e.len() {
        lemma_stab_map_get(e.drop_last(), i);
        assert(e.drop_last()[i] == e[i]);
        assert(e[i].0 != e.last().0);
    }
}

proof fn lemma_stab_map_absent(e: Seq<(Seq<char>, (bool, Ty))>, k: Seq<char>)
    requires
        forall|i: int| 0 <= i < e.len() ==> (#[trigger] e[i]).0 != k,
    ensures
        !stab_map(e).contains_key(k),
    decreases e.len(),
{
    if e.len() > 0 {
        lemma_stab_map_absent(e.drop_last(), k);
    }
}

proof fn lemma_stab_map_update(e: Seq<(Seq<char>, (bool, Ty))>, i: int, x: (Seq<char>, (bool, Ty)))
    requires
        forall|m: int, n: int| 0 <= m < n < e.len() ==> (#[trigger] e[m]).0 != (#[trigger] e[n]).0,
        0 <= i < e.len(),
        e[i].0 == x.0,
    ensures
        stab_map(e.update(i, x)) == stab_map(e).insert(x.0, x.1),
    decreases e.len(),
{
    if i + 1 == e.len() {
        assert(e.update(i, x).drop_last() =~= e.drop_last());
        assert(stab_map(e.update(i, x)) =~= stab_map(e).insert(x.0, x.1));
    } else {
        lemma_stab_map_update(e.drop_last(), i, x);
        assert(e.update(i, x).drop_last() =~= e.drop_last().update(i, x));
        assert(e.update(i, x).last() == e.last());
        assert(e[i].0 != e.last().0);
        assert(stab_map(e.update(i, x)) =~= stab_map(e).insert(x.0, x.1));
    }
}

/// A flat symbol table mapping names to typed bindings.
#[derive(Debug)]
pub struct SymbolTable {
    syms: Vec<(String, Symbol)>,
}

impl View for SymbolTable {
    type V = Map<Seq<char>, (bool, Ty)>;

    closed spec fn view(&self) -> Map<Seq<char>, (bool, Ty)> {
        stab_map(entries_of(self.syms@))
    }
}

impl SymbolTable {
    /// No two bindings share a name.
    pub closed spec fn wf(&self) -> bool {
        forall|m: int, n: int|
            0 <= m < n < self.syms@.len() ==> (#[trigger] self.syms@[m]).0@ != (
            #[trigger] self.syms@[n]).0@
    }

    /// Every stored type's variables name slots below `n`.
    pub closed spec fn vars_fit(&self, n: int) -> bool {
        forall|i: int| 0 <= i < self.syms@.len() ==> vars_below((#[trigger] self.syms@[i]).1@.1, n)
    }

    /// An empty table.
    pub fn new() -> (r: SymbolTable)
        ensures
            r.wf(),
            r@ == Map::<Seq<char>, (bool, Ty)>::empty(),
            forall|n: int| r.vars_fit(n),
    {
        SymbolTable { syms: Vec::new() }
    }

    spec fn entries(&self) -> Seq<(Seq<char>, (bool, Ty))> {
        entries_of(self.syms@)
    }

    /// The index of the binding of `key`, if any.
    #[verifier::loop_isolation(false)]
    fn position(&self, key: &String) -> (r: Option<usize>)
        requires
            self.wf(),
        ensures
            match r {
                Some(i) => i < self.syms@.len() && self.syms@[i as int].0@ == key@
                    && self@.contains_key(key@) && self@[key@] == self.syms@[i as int].1@,
                None => !self@.contains_key(key@),
            },
    {
        let mut i: usize = 0;
        while i < self.syms.len()
            invariant
                0 <= i <= self.syms@.len(),
                forall|j: int| 0 <= j < i ==> (#[trigger] self.syms@[j]).0@ != key@,
            decreases self.syms@.len() - i,
        {
            if self.syms[i].0 == *key {
                proof {
                    lemma_stab_map_get(self.entries(), i as int);
                    assert(self.entries()[i as int].0 == key@);
                }
                return Some(i);
            }
            i = i + 1;
        }
        proof {
            assert forall|j: int| 0 <= j < self.entries().len() implies (
            #[trigger] self.entries()[j]).0 != key@ by {
                assert(self.entries()[j].0 == self.syms@[j].0@);
            }
            lemma_stab_map_absent(self.entries(), key@);
        }
        None
    }

    /// Bind `name` to `ty`, shadowing an earlier binding of the same name;
    /// the result says whether one was shadowed.
    #[verifier::loop_isolation(false)]
    pub fn add(&mut self, mutable: bool, name: String, ty: Type) -> (r: bool)
        requires
            old(self).wf(),
        ensures
            final(self).wf(),
            final(self)@ == old(self)@.insert(name@, (mutable, ty@)),
            r == old(self)@.contains_key(name@),
            forall|n: int|
                old(self).vars_fit(n) && vars_below(ty@, n) ==> final(self).vars_fit(n),
    {
        let ghost olde = self.entries();
        match self.position(&name) {
            Some(i) => {
                proof {
                    lemma_stab_map_update(
                        olde,
                        i as int,
                        (name@, (mutable, ty@)),
                    );
                }
                self.syms[i] = (name, Symbol::new(ty, mutable));
                proof {
                    assert(self.entries() =~= olde.update(i as int, (name@, (mutable, ty@))));
                    assert forall|m: int, n: int|
                        0 <= m < n < self.syms@.len() implies (#[trigger] self.syms@[m]).0@ != (
                    #[trigger] self.syms@[n]).0@ by {
                        if m != i {
                            assert(self.syms@[m] == old(self).syms@[m]);
                        }
                        if n != i {
                            assert(self.syms@[n] == old(self).syms@[n]);
                        }
                        assert(old(self).syms@[i as int].0@ == name@);
                    }
                    assert forall|nn: int|
                        old(self).vars_fit(nn) && vars_below(ty@, nn) implies self.vars_fit(
                        nn,
                    ) by {
                        assert forall|j: int|
                            0 <= j < self.syms@.len() implies vars_below(
                            (#[trigger] self.syms@[j]).1@.1,
                            nn,
                        ) by {
                            if j != i {
                                assert(self.syms@[j] == old(self).syms@[j]);
                            }
                        }
                    }
                }
                true
            },
            None => {
                proof {
                    assert forall|j: int|
                        0 <= j < old(self).syms@.len() implies (#[trigger] old(
                        self,
                    ).syms@[j]).0@ != name@ by {
                        if old(self).syms@[j].0@ == name@ {
                            assert(olde[j].0 == name@);
                            lemma_stab_map_get(olde, j);
                        }
                    }
                }
                self.syms.push((name, Symbol::new(ty, mutable)));
                proof {
                    assert(self.entries().drop_last() =~= olde);
                    assert forall|m: int, n: int|
                        0 <= m < n < self.syms@.len() implies (#[trigger] self.syms@[m]).0@ != (
                    #[trigger] self.syms@[n]).0@ by {
                        assert(self.syms@[m] == old(self).syms@[m]);
                        if n < old(self).syms@.len() {
                            assert(self.syms@[n] == old(self).syms@[n]);
                        } else {
                            assert(self.syms@[n].0@ == name@);
                        }
                    }
                    assert forall|nn: int|
                        old(self).vars_fit(nn) && vars_below(ty@, nn) implies self.vars_fit(
                        nn,
                    ) by {
                        assert forall|j: int|
                            0 <= j < self.syms@.len() implies vars_below(
                            (#[trigger] self.syms@[j]).1@.1,
                            nn,
                        ) by {
                            if j < old(self).syms@.len() {
                                assert(self.syms@[j] == old(self).syms@[j]);
                            }
                        }
                    }
                }
                false
            },
        }
    }

    /// The binding of `name`, or `Undefined` when there is none.
    pub fn lookup_raw(&self, name: &str) -> (r: Result<Symbol, TypeError>)
        requires
            self.wf(),
        ensures
            self@.contains_key(name@) ==> (r matches Ok(sym) && sym@ == self@[name@]),
            !self@.contains_key(name@) ==> (r matches Err(e) && e@ == TyErr::Undefined(name@)),
    {
        let key = name.to_owned();
        match self.position(&key) {
            Some(i) => {
                let sym = &self.syms[i].1;
                Ok(Symbol::new(sym.s_type.deep_clone(), sym.mutable))
            },
            None => Err(TypeError::Undefined(key)),
        }
    }

    /// The type bound to `name`, or `Undefined` when there is none.
    pub fn lookup(&self, name: &str) -> (r: Result<Type, TypeError>)
        requires
            self.wf(),
        ensures
            self@.contains_key(name@) ==> (r matches Ok(t) && t@ == self@[name@].1),
            !self@.contains_key(name@) ==> (r matches Err(e) && e@ == TyErr::Undefined(name@)),
    {
        match self.lookup_raw(name) {
            Ok(sym) => Ok(sym.s_type),
            Err(e) => Err(e),
        }
    }

    /// Narrow the type of the already present binding of `name` by
    /// unifying it with `t`, and record the unified type.
    #[verifier::loop_isolation(false)]
    pub fn specify(
        &mut self,
        store: &mut TypeVarStore,
        name: &str,
        t: &Type,
    ) -> (r: Result<Type, TypeError>)
        requires
            old(self).wf(),
            old(store).wf(),
            old(self)@.contains_key(name@),
            old(self).vars_fit(old(store)@.len() as int),
            vars_below(t@, old(store)@.len() as int),
        ensures
            final(self).wf(),
            final(store).wf(),
            final(store)@.len() == old(store)@.len(),
            final(self).vars_fit(old(store)@.len() as int),
            r matches Ok(ut) ==> final(self)@ == old(self)@.insert(
                name@,
                (old(self)@[name@].0, ut@),
            ),
            r is Err ==> final(self)@ == old(self)@,
            var_free(old(self)@[name@].1) && var_free(t@) ==> final(store)@ == old(store)@
                && unify_view(r) == unify_ty(old(self)@[name@].1, t@),
    {
        let key = name.to_owned();
        match self.position(&key) {
            Some(i) => {
                proof {
                    assert(vars_below(self.syms@[i as int].1@.1, old(store)@.len() as int));
                }
                let ut = match crate::ttype::unify_types(store, &self.syms[i].1.s_type, t) {
                    Ok(ut) => ut,
                    Err(e) => {
                        return Err(e);
                    },
                };
                let ghost olde = self.entries();
                let was_mutable = self.syms[i].1.mutable;
                proof {
                    lemma_stab_map_update(
                        olde,
                        i as int,
                        (key@, (was_mutable, ut@)),
                    );
                }
                let stored = ut.deep_clone();
                self.syms[i] = (key, Symbol::new(stored, was_mutable));
                proof {
                    assert(self.entries() =~= olde.update(
                        i as int,
                        (name@, (was_mutable, ut@)),
                    ));
                    assert forall|m: int, n: int|
                        0 <= m < n < self.syms@.len() implies (#[trigger] self.syms@[m]).0@ != (
                    #[trigger] self.syms@[n]).0@ by {
                        if m != i {
                            assert(self.syms@[m] == old(self).syms@[m]);
                        }
                        if n != i {
                            assert(self.syms@[n] == old(self).syms@[n]);
                        }
                        assert(old(self).syms@[i as int].0@ == name@);
                    }
                    assert forall|j: int|
                        0 <= j < self.syms@.len() implies vars_below(
                        (#[trigger] self.syms@[j]).1@.1,
                        old(store)@.len() as int,
                    ) by {
                        if j != i {
                            assert(self.syms@[j] == old(self).syms@[j]);
                        }
                    }
                }
                Ok(ut)
            },
            None => {
                proof {
                    assert(false);
                }
                Err(TypeError::Undefined(key))
            },
        }
    }

    /// Re-assign the binding of `name`: it must exist and be mutable, and
    /// the new value's type `t` is unified with the recorded type.
    #[verifier::loop_isolation(false)]
    pub fn mutate(
        &mut self,
        store: &mut TypeVarStore,
        name: &str,
        t: &Type,
    ) -> (r: Result<Type, TypeError>)
        requires
            old(self).wf(),
            old(store).wf(),
            old(self).vars_fit(old(store)@.len() as int),
            vars_below(t@, old(store)@.len() as int),
        ensures
            final(self).wf(),
            final(store).wf(),
            final(store)@.len() == old(store)@.len(),
            final(self).vars_fit(old(store)@.len() as int),
            !old(self)@.contains_key(name@) ==> (r matches Err(e) && e@ == TyErr::Undefined(
                name@,
            ) && final(self)@ == old(self)@),
            old(self)@.contains_key(name@) && !old(self)@[name@].0 ==> (r matches Err(e) && e@
                == TyErr::NotMutable(name@) && final(self)@ == old(self)@),
            old(self)@.contains_key(name@) && old(self)@[name@].0 ==> {
                &&& (r matches Ok(ut) ==> final(self)@ == old(self)@.insert(name@, (true, ut@)))
                &&& (r is Err ==> final(self)@ == old(self)@)
                &&& (var_free(old(self)@[name@].1) && var_free(t@) ==> final(store)@ == old(
                    store,
                )@ && unify_view(r) == unify_ty(t@, old(self)@[name@].1))
            },
    {
        let key = name.to_owned();
        match self.position(&key) {
            Some(i) => {
                if !self.syms[i].1.mutable {
                    return Err(TypeError::NotMutable(key));
                }
                proof {
                    assert(vars_below(self.syms@[i as int].1@.1, old(store)@.len() as int));
                }
                let ut = match crate::ttype::unify_types(store, t, &self.syms[i].1.s_type) {
                    Ok(ut) => ut,
                    Err(e) => {
                        return Err(e);
                    },
                };
                let ghost olde = self.entries();
                proof {
                    lemma_stab_map_update(olde, i as int, (key@, (true, ut@)));
                }
                let stored = ut.deep_clone();
                self.syms[i] = (key, Symbol::new(stored, true));
                proof {
                    assert(self.entries() =~= olde.update(i as int, (name@, (true, ut@))));
                    assert forall|m: int, n: int|
                        0 <= m < n < self.syms@.len() implies (#[trigger] self.syms@[m]).0@ != (
                    #[trigger] self.syms@[n]).0@ by {
                        if m != i {
                            assert(self.syms@[m] == old(self).syms@[m]);
                        }
                        if n != i {
                            assert(self.syms@[n] == old(self).syms@[n]);
                        }
                        assert(old(self).syms@[i as int].0@ == name@);
                    }
                    assert forall|j: int|
                        0 <= j < self.syms@.len() implies vars_below(
                        (#[trigger] self.syms@[j]).1@.1,
                        old(store)@.len() as int,
                    ) by {
                        if j != i {
                            assert(self.syms@[j] == old(self).syms@[j]);
                        }
                    }
                }
                Ok(ut)
            },
            None => Err(TypeError::Undefined(key)),
        }
    }
}

} // verus!
