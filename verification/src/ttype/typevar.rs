use vstd::prelude::*;

use crate::ttype::{
    lemma_unify_ty_var_free, lemma_var_free_below, ty_of, tys_of, unify_concrete, unify_ty,
    unify_view, var_free, vars_below, Ty, TyErr, Type, TypeError,
};

verus! {

/// Identifier of a type variable inside a `TypeVarStore`.
#[derive(Debug, Clone, Copy, PartialEq, Eq, Hash, Structural)]
pub struct TypeVar(pub usize);

/// One slot of the store: a still-free variable with its constraint set
/// (empty set means "any type"), a variable merged into another one, or a
/// variable resolved to a variable-free type.
#[derive(Debug)]
pub enum VarEntry {
    Free(Vec<Type>),
    Link(usize),
    Resolved(Type),
}

/// Model of a store slot.
pub enum Slot {
    Free(Seq<Ty>),
    Link(int),
    Resolved(Ty),
}

/// The model of a store slot.
pub open spec fn slot_of(e: VarEntry) -> Slot {
    match e {
        VarEntry::Free(cs) => Slot::Free(tys_of(cs@)),
        VarEntry::Link(j) => Slot::Link(j as int),
        VarEntry::Resolved(t) => Slot::Resolved(ty_of(t)),
    }
}

/// Well-formedness of a store model: links go strictly downwards, so that
/// chains of links always end, and every type held by a slot is
/// variable-free.
pub open spec fn store_wf(s: Seq<Slot>) -> bool {
    forall|i: int|
        0 <= i < s.len() ==> match #[trigger] s[i] {
            Slot::Link(j) => 0 <= j < i,
            Slot::Free(cs) => forall|k: int| 0 <= k < cs.len() ==> var_free(#[trigger] cs[k]),
            Slot::Resolved(t) => var_free(t),
        }
}

/// The root slot that a chain of links reaches from `i`.
pub open spec fn root_of(s: Seq<Slot>, i: int) -> int
    recommends
        store_wf(s),
        0 <= i < s.len(),
    decreases (if 0 <= i { i } else { 0 }),
    when store_wf(s) && 0 <= i < s.len()
{
    match s[i] {
        Slot::Link(j) => root_of(s, j),
        _ => i,
    }
}

/// Whether `t` occurs in `s`.
pub open spec fn seq_contains_ty(s: Seq<Ty>, t: Ty) -> bool {
    exists|i: int| 0 <= i < s.len() && s[i] == t
}

/// The members of `a` that also occur in `b`, in the order of `a`.
pub open spec fn inter_tys(a: Seq<Ty>, b: Seq<Ty>) -> Seq<Ty>
    decreases a.len(),
{
    if a.len() == 0 {
        Seq::empty()
    } else {
        inter_tys(a.drop_last(), b) + (if seq_contains_ty(b, a.last()) {
            seq![a.last()]
        } else {
            Seq::empty()
        })
    }
}

/// What binding a constraint set to a concrete type leaves over: the
/// unification result of each member that is compatible with `t`, in order.
pub open spec fn bind_results(cs: Seq<Ty>, t: Ty) -> Seq<Ty>
    decreases cs.len(),
{
    if cs.len() == 0 {
        Seq::empty()
    } else {
        bind_results(cs.drop_last(), t) + (if unify_ty(cs.last(), t) is Ok {
            seq![unify_ty(cs.last(), t)->Ok_0]
        } else {
            Seq::empty()
        })
    }
}

/// The per-session store of type variables: a union-find forest whose
/// roots carry either a constraint set or a resolved type.
#[derive(Debug)]
pub struct TypeVarStore {
    entries: Vec<VarEntry>,
}

impl View for TypeVarStore {
    type V = Seq<Slot>;

    closed spec fn view(&self) -> Seq<Slot> {
        Seq::new(self.entries@.len(), |i: int| slot_of(self.entries@[i]))
    }
}

impl TypeVarStore {
    pub open spec fn wf(&self) -> bool {
        store_wf(self@)
    }

    /// An empty store.
    pub fn new() -> (r: TypeVarStore)
        ensures
            r.wf(),
            r@.len() == 0,
    {
        TypeVarStore { entries: Vec::new() }
    }

    pub fn len(&self) -> (r: usize)
        ensures
            r == self@.len(),
    {
        self.entries.len()
    }

    /// A fresh variable constrained to the given set of variable-free
    /// types; an empty set means the variable may become any type.
    pub fn fresh(&mut self, constraints: Vec<Type>) -> (v: TypeVar)
        requires
            old(self).wf(),
            forall|k: int| 0 <= k < constraints@.len() ==> var_free(#[trigger] constraints@[k]@),
        ensures
            final(self).wf(),
            v.0 == old(self)@.len(),
            final(self)@.len() == old(self)@.len() + 1,
            forall|i: int| 0 <= i < old(self)@.len() ==> final(self)@[i] == old(self)@[i],
            final(self)@[v.0 as int] == Slot::Free(tys_of(constraints@)),
    {
        let v = TypeVar(self.entries.len());
        self.entries.push(VarEntry::Free(constraints));
        proof {
            assert forall|i: int| 0 <= i < old(self)@.len() implies self@[i] == old(self)@[i] by {
                assert(self.entries@[i] == old(self).entries@[i]);
            }
            assert(self@[old(self)@.len() as int] == Slot::Free(tys_of(constraints@)));
            assert forall|k: int| 0 <= k < tys_of(constraints@).len() implies var_free(
                #[trigger] tys_of(constraints@)[k],
            ) by {
                assert(tys_of(constraints@)[k] == constraints@[k]@);
            }
            assert forall|i: int|
                0 <= i < self@.len() implies match #[trigger] self@[i] {
                    Slot::Link(j) => 0 <= j < i,
                    Slot::Free(cs) => forall|k: int|
                        0 <= k < cs.len() ==> var_free(#[trigger] cs[k]),
                    Slot::Resolved(t) => var_free(t),
                } by {
                if i < old(self)@.len() {
                    assert(self@[i] == old(self)@[i]);
                    assert(store_wf(old(self)@));
                }
            }
        }
        v
    }

    /// The root that the chain of links reaches from `v`.
    fn find(&self, v: usize) -> (r: usize)
        requires
            self.wf(),
            v < self@.len(),
        ensures
            r < self@.len(),
            r == root_of(self@, v as int),
            !(self@[r as int] is Link),
    {
        let mut i: usize = v;
        loop
            invariant
                self.wf(),
                i < self@.len(),
                root_of(self@, i as int) == root_of(self@, v as int),
            decreases i,
        {
            match &self.entries[i] {
                VarEntry::Link(j) => {
                    proof {
                        assert(self@[i as int] == slot_of(self.entries@[i as int]));
                    }
                    i = *j;
                },
                _ => {
                    proof {
                        assert(self@[i as int] == slot_of(self.entries@[i as int]));
                    }
                    return i;
                },
            }
        }
    }
}

/// Redirecting one root under another moves every variable of the old root
/// to the new one and no other variable anywhere else.
proof fn lemma_root_redirect(s_old: Seq<Slot>, s_new: Seq<Slot>, lo: int, hi: int, i: int)
    requires
        store_wf(s_old),
        s_old.len() == s_new.len(),
        0 <= lo < hi < s_old.len(),
        !(s_old[lo] is Link),
        !(s_old[hi] is Link),
        !(s_new[lo] is Link),
        s_new[hi] == Slot::Link(lo),
        forall|j: int| 0 <= j < s_old.len() && j != lo && j != hi ==> s_new[j] == s_old[j],
        store_wf(s_new),
        0 <= i < s_old.len(),
    ensures
        root_of(s_new, i) == if root_of(s_old, i) == hi {
            lo
        } else {
            root_of(s_old, i)
        },
    decreases i,
{
    if i == hi {
        assert(root_of(s_new, hi) == root_of(s_new, lo));
    } else if i == lo {
        assert(root_of(s_new, lo) == lo);
        assert(root_of(s_old, lo) == lo);
    } else {
        match s_new[i] {
            Slot::Link(j) => {
                assert(s_new[i] == s_old[i]);
                lemma_root_redirect(s_old, s_new, lo, hi, j);
            },
            _ => {
                assert(s_old[i] == s_new[i]);
            },
        }
    }
}

/// A structural copy of a vector of types, model for model.
fn clone_types(v: &Vec<Type>) -> (r: Vec<Type>)
    ensures
        r@.len() == v@.len(),
        forall|j: int| 0 <= j < v@.len() ==> (#[trigger] r@[j])@ == v@[j]@,
        tys_of(r@) == tys_of(v@),
{
    let mut r: Vec<Type> = Vec::new();
    let mut i: usize = 0;
    while i < v.len()
        invariant
            0 <= i <= v@.len(),
            r@.len() == i,
            forall|j: int| 0 <= j < i ==> (#[trigger] r@[j])@ == v@[j]@,
        decreases v@.len() - i,
    {
        r.push(v[i].deep_clone());
        i = i + 1;
    }
    proof {
        assert(tys_of(r@) =~= tys_of(v@));
    }
    r
}

/// Whether some member of `v` is structurally equal to `t`.
fn contains_ty(v: &Vec<Type>, t: &Type) -> (r: bool)
    ensures
        r == seq_contains_ty(tys_of(v@), t@),
{
    let mut i: usize = 0;
    while i < v.len()
        invariant
            0 <= i <= v@.len(),
            forall|j: int| 0 <= j < i ==> (#[trigger] v@[j])@ != t@,
        decreases v@.len() - i,
    {
        if v[i].type_eq(t) {
            proof {
                assert(tys_of(v@)[i as int] == t@);
            }
            return true;
        }
        i = i + 1;
    }
    proof {
        assert forall|j: int| 0 <= j < tys_of(v@).len() implies (#[trigger] tys_of(v@)[j])
            != t@ by {
            assert(tys_of(v@)[j] == v@[j]@);
        }
    }
    false
}

/// The members of `a` that also occur in `b`, in the order of `a`.
fn intersect_types(a: &Vec<Type>, b: &Vec<Type>) -> (r: Vec<Type>)
    ensures
        tys_of(r@) == inter_tys(tys_of(a@), tys_of(b@)),
        forall|j: int|
            0 <= j < r@.len() ==> exists|i: int| 0 <= i < a@.len() && (#[trigger] r@[j])@ == a@[i]@,
{
    let mut r: Vec<Type> = Vec::new();
    let mut i: usize = 0;
    while i < a.len()
        invariant
            0 <= i <= a@.len(),
            tys_of(r@) == inter_tys(tys_of(a@).subrange(0, i as int), tys_of(b@)),
            forall|j: int|
                0 <= j < r@.len() ==> exists|m: int|
                    0 <= m < a@.len() && (#[trigger] r@[j])@ == a@[m]@,
        decreases a@.len() - i,
    {
        let ghost prefix = tys_of(a@).subrange(0, i as int);
        let ghost prefix1 = tys_of(a@).subrange(0, i + 1);
        proof {
            assert(prefix1.drop_last() =~= prefix);
            assert(prefix1.last() == a@[i as int]@);
        }
        if contains_ty(b, &a[i]) {
            let ghost old_r = r@;
            r.push(a[i].deep_clone());
            proof {
                assert(tys_of(r@) =~= tys_of(old_r) + seq![a@[i as int]@]);
                assert(tys_of(r@) =~= inter_tys(prefix1, tys_of(b@)));
            }
        } else {
            proof {
                assert(inter_tys(prefix1, tys_of(b@)) =~= inter_tys(prefix, tys_of(b@)));
            }
        }
        i = i + 1;
    }
    proof {
        assert(tys_of(a@).subrange(0, a@.len() as int) =~= tys_of(a@));
    }
    r
}

/// A store slot that a root may hold: a free constraint set whose members
/// are variable-free, or a resolved variable-free type.
pub open spec fn entry_ok(e: VarEntry) -> bool {
    match e {
        VarEntry::Free(cs) => forall|k: int| 0 <= k < cs@.len() ==> var_free(#[trigger] cs@[k]@),
        VarEntry::Resolved(t) => var_free(t@),
        VarEntry::Link(_) => false,
    }
}

impl TypeVarStore {
    /// Union of two variables: two free roots intersect their constraint
    /// sets (an empty set meaning "any"), a non-empty intersection of two
    /// non-empty sets is required; a free root is bound to the other
    /// side's resolved type, keeping the unification of every compatible
    /// constraint; and two resolved roots unify their types.  Afterwards
    /// the two variables share one root, which the result names.
    #[verifier::loop_isolation(false)]
    pub fn merge(&mut self, v1: &TypeVar, v2: &TypeVar) -> (r: Result<TypeVar, TypeError>)
        requires
            old(self).wf(),
            v1.0 < old(self)@.len(),
            v2.0 < old(self)@.len(),
        ensures
            final(self).wf(),
            final(self)@.len() == old(self)@.len(),
            r is Err ==> final(self)@ == old(self)@,
            r matches Ok(v) ==> v.0 < old(self)@.len() && root_of(final(self)@, v1.0 as int)
                == v.0 as int && root_of(final(self)@, v2.0 as int) == v.0 as int,
            ({
                let ra = root_of(old(self)@, v1.0 as int);
                let rb = root_of(old(self)@, v2.0 as int);
                let a = old(self)@[ra]->Free_0;
                let b = old(self)@[rb]->Free_0;
                (ra != rb && old(self)@[ra] is Free && old(self)@[rb] is Free && a.len() > 0
                    && b.len() > 0) ==> (if inter_tys(a, b).len() == 0 {
                    r is Err && r->Err_0@ == TyErr::DisjointConstraints(a, b)
                } else {
                    r is Ok && final(self)@[if ra < rb {
                        ra
                    } else {
                        rb
                    }] == Slot::Free(inter_tys(a, b))
                })
            }),
            ({
                let ra = root_of(old(self)@, v1.0 as int);
                let rb = root_of(old(self)@, v2.0 as int);
                let a = old(self)@[ra]->Free_0;
                let b = old(self)@[rb]->Free_0;
                let lo = if ra < rb {
                    ra
                } else {
                    rb
                };
                (ra != rb && old(self)@[ra] is Free && old(self)@[rb] is Free) ==> (
                (a.len() == 0 ==> r is Ok && final(self)@[lo] == Slot::Free(b)) && (a.len() > 0
                    && b.len() == 0 ==> r is Ok && final(self)@[lo] == Slot::Free(a)))
            }),
            ({
                let ra = root_of(old(self)@, v1.0 as int);
                let rb = root_of(old(self)@, v2.0 as int);
                let rr = if old(self)@[ra] is Resolved {
                    ra
                } else {
                    rb
                };
                let rf = if old(self)@[ra] is Resolved {
                    rb
                } else {
                    ra
                };
                let t = old(self)@[rr]->Resolved_0;
                let cs = old(self)@[rf]->Free_0;
                let br = bind_results(cs, t);
                let lo = if ra < rb {
                    ra
                } else {
                    rb
                };
                (ra != rb && ((old(self)@[ra] is Resolved && old(self)@[rb] is Free) || (old(
                    self,
                )@[ra] is Free && old(self)@[rb] is Resolved))) ==> (if cs.len() == 0 {
                    r is Ok && final(self)@[lo] == Slot::Resolved(t)
                } else if br.len() == 0 {
                    r is Err && r->Err_0@ == TyErr::DisjointConstraints(cs, seq![t])
                } else if br.len() == 1 {
                    r is Ok && final(self)@[lo] == Slot::Resolved(br[0])
                } else {
                    r is Ok && final(self)@[lo] == Slot::Free(br)
                })
            }),
            ({
                let ra = root_of(old(self)@, v1.0 as int);
                let rb = root_of(old(self)@, v2.0 as int);
                let ta = old(self)@[ra]->Resolved_0;
                let tb = old(self)@[rb]->Resolved_0;
                let lo = if ra < rb {
                    ra
                } else {
                    rb
                };
                (ra != rb && old(self)@[ra] is Resolved && old(self)@[rb] is Resolved) ==> (
                if unify_ty(ta, tb) is Ok {
                    r is Ok && final(self)@[lo] == Slot::Resolved(unify_ty(ta, tb)->Ok_0)
                } else {
                    r is Err && r->Err_0@ == unify_ty(ta, tb)->Err_0
                })
            }),
    {
        let ra = self.find(v1.0);
        let rb = self.find(v2.0);
        if ra == rb {
            return Ok(TypeVar(ra));
        }
        let lo: usize = if ra < rb {
            ra
        } else {
            rb
        };
        let hi: usize = if ra < rb {
            rb
        } else {
            ra
        };
        proof {
            assert(self@[ra as int] == slot_of(self.entries@[ra as int]));
            assert(self@[rb as int] == slot_of(self.entries@[rb as int]));
        }
        let new_lo: VarEntry = match (&self.entries[ra], &self.entries[rb]) {
            (VarEntry::Free(a), VarEntry::Free(b)) => {
                proof {
                    assert forall|k: int| 0 <= k < a@.len() implies var_free(
                        #[trigger] a@[k]@,
                    ) by {
                        assert(self@[ra as int]->Free_0[k] == a@[k]@);
                    }
                    assert forall|k: int| 0 <= k < b@.len() implies var_free(
                        #[trigger] b@[k]@,
                    ) by {
                        assert(self@[rb as int]->Free_0[k] == b@[k]@);
                    }
                }
                if a.len() == 0 {
                    VarEntry::Free(clone_types(b))
                } else if b.len() == 0 {
                    VarEntry::Free(clone_types(a))
                } else {
                    let inter = intersect_types(a, b);
                    if inter.len() == 0 {
                        proof {
                            assert(inter_tys(tys_of(a@), tys_of(b@)).len() == 0);
                        }
                        return Err(
                            TypeError::DisjointConstraints(clone_types(a), clone_types(b)),
                        );
                    }
                    VarEntry::Free(inter)
                }
            },
            (VarEntry::Resolved(t), VarEntry::Free(cs)) | (
                VarEntry::Free(cs),
                VarEntry::Resolved(t),
            ) => {
                proof {
                    assert(var_free(t@));
                    assert forall|k: int| 0 <= k < cs@.len() implies var_free(
                        #[trigger] cs@[k]@,
                    ) by {
                        if self.entries@[ra as int] is Free {
                            assert(self@[ra as int]->Free_0[k] == cs@[k]@);
                        } else {
                            assert(self@[rb as int]->Free_0[k] == cs@[k]@);
                        }
                    }
                }
                if cs.len() == 0 {
                    VarEntry::Resolved(t.deep_clone())
                } else {
                    match bind_types(cs, t) {
                        Ok(entry) => entry,
                        Err(e) => {
                            return Err(e);
                        },
                    }
                }
            },
            (VarEntry::Resolved(t1), VarEntry::Resolved(t2)) => {
                proof {
                    assert(var_free(t1@));
                    assert(var_free(t2@));
                }
                match unify_concrete(t1, t2) {
                    Ok(u) => {
                        proof {
                            lemma_unify_ty_var_free(t1@, t2@);
                        }
                        VarEntry::Resolved(u)
                    },
                    Err(e) => {
                        return Err(e);
                    },
                }
            },
            _ => {
                proof {
                    assert(false);
                }
                VarEntry::Link(0)
            },
        };
        proof {
            assert(entry_ok(new_lo));
        }
        let ghost ns = slot_of(new_lo);
        let ghost s_old = self@;
        self.entries[lo] = new_lo;
        self.entries[hi] = VarEntry::Link(lo);
        proof {
            let s_new = self@;
            assert(s_new.len() == s_old.len());
            assert forall|j: int|
                0 <= j < s_old.len() && j != lo && j != hi implies s_new[j] == s_old[j] by {
                assert(self.entries@[j] == old(self).entries@[j]);
            }
            assert(s_new[hi as int] == Slot::Link(lo as int));
            assert(s_new[lo as int] == ns);
            assert forall|i: int|
                0 <= i < s_new.len() implies match #[trigger] s_new[i] {
                    Slot::Link(j) => 0 <= j < i,
                    Slot::Free(cs) => forall|k: int|
                        0 <= k < cs.len() ==> var_free(#[trigger] cs[k]),
                    Slot::Resolved(t) => var_free(t),
                } by {
                if i == lo {
                    match new_lo {
                        VarEntry::Free(cs) => {
                            assert forall|k: int|
                                0 <= k < tys_of(cs@).len() implies var_free(
                                #[trigger] tys_of(cs@)[k],
                            ) by {
                                assert(tys_of(cs@)[k] == cs@[k]@);
                            }
                        },
                        _ => (),
                    }
                } else if i != hi {
                    assert(s_new[i] == s_old[i]);
                    assert(store_wf(s_old));
                }
            }
            assert(store_wf(s_new));
            lemma_root_redirect(s_old, s_new, lo as int, hi as int, v1.0 as int);
            lemma_root_redirect(s_old, s_new, lo as int, hi as int, v2.0 as int);
        }
        Ok(TypeVar(lo))
    }
}

impl TypeVarStore {
    /// Constrain the variable `v` to the variable-free type `t`.  A free
    /// variable keeps the unification result of every compatible member of
    /// its constraint set; when one single possibility is left the variable
    /// is resolved to it, and an empty constraint set takes `t` itself.  A
    /// resolved variable has its type unified with `t`.
    #[verifier::loop_isolation(false)]
    pub fn merge_with_type(&mut self, v: &TypeVar, t: &Type) -> (r: Result<Type, TypeError>)
        requires
            old(self).wf(),
            v.0 < old(self)@.len(),
        ensures
            final(self).wf(),
            final(self)@.len() == old(self)@.len(),
            r is Err ==> final(self)@ == old(self)@,
            r matches Ok(u) ==> vars_below(u@, old(self)@.len() as int),
            !var_free(t@) ==> r is Err && r->Err_0@ == TyErr::NonConcreteType,
            var_free(t@) ==> ({
                let rt = root_of(old(self)@, v.0 as int);
                let cs = old(self)@[rt]->Free_0;
                let br = bind_results(cs, t@);
                &&& (old(self)@[rt] is Resolved ==> {
                    let rty = old(self)@[rt]->Resolved_0;
                    &&& unify_view(r) == unify_ty(rty, t@)
                    &&& (r is Ok ==> final(self)@[rt] == Slot::Resolved(unify_ty(rty, t@)->Ok_0))
                })
                &&& (old(self)@[rt] is Free && cs.len() == 0 ==> r is Ok && r->Ok_0@ == t@
                    && final(self)@[rt] == Slot::Resolved(t@))
                &&& (old(self)@[rt] is Free && cs.len() > 0 ==> (if br.len() == 0 {
                    r is Err && r->Err_0@ == TyErr::DisjointConstraints(cs, seq![t@])
                } else if br.len() == 1 {
                    r is Ok && r->Ok_0@ == br[0] && final(self)@[rt] == Slot::Resolved(br[0])
                } else {
                    r is Ok && r->Ok_0@ == Ty::Unknown(rt as nat) && final(self)@[rt]
                        == Slot::Free(br)
                }))
            }),
    {
        if !t.is_var_free() {
            return Err(TypeError::NonConcreteType);
        }
        let root = self.find(v.0);
        proof {
            assert(self@[root as int] == slot_of(self.entries@[root as int]));
        }
        let outcome: (Result<Type, TypeError>, Option<VarEntry>) = match &self.entries[root] {
            VarEntry::Link(_) => {
                proof {
                    assert(false);
                }
                (Err(TypeError::NonConcreteType), None)
            },
            VarEntry::Resolved(rty) => {
                proof {
                    assert(var_free(rty@));
                }
                match unify_concrete(rty, t) {
                    Ok(u) => {
                        proof {
                            lemma_unify_ty_var_free(rty@, t@);
                            lemma_var_free_below(u@, old(self)@.len() as int);
                        }
                        let r = u.deep_clone();
                        (Ok(r), Some(VarEntry::Resolved(u)))
                    },
                    Err(e) => (Err(e), None),
                }
            },
            VarEntry::Free(cs) => {
                proof {
                    assert forall|k: int| 0 <= k < cs@.len() implies var_free(
                        #[trigger] cs@[k]@,
                    ) by {
                        assert(self@[root as int]->Free_0[k] == cs@[k]@);
                    }
                }
                if cs.len() == 0 {
                    proof {
                        lemma_var_free_below(t@, old(self)@.len() as int);
                    }
                    (Ok(t.deep_clone()), Some(VarEntry::Resolved(t.deep_clone())))
                } else {
                    match bind_types(cs, t) {
                        Ok(entry) => {
                            match &entry {
                                VarEntry::Resolved(u) => {
                                    proof {
                                        lemma_var_free_below(u@, old(self)@.len() as int);
                                    }
                                    let r = u.deep_clone();
                                    (Ok(r), Some(entry))
                                },
                                _ => (Ok(Type::Unknown(TypeVar(root))), Some(entry)),
                            }
                        },
                        Err(e) => (Err(e), None),
                    }
                }
            },
        };
        let (r, update) = outcome;
        match update {
            Some(entry) => {
                proof {
                    assert(entry_ok(entry));
                }
                let ghost ns = slot_of(entry);
                let ghost s_old = self@;
                self.entries[root] = entry;
                proof {
                    let s_new = self@;
                    assert forall|j: int|
                        0 <= j < s_old.len() && j != root implies s_new[j] == s_old[j] by {
                        assert(self.entries@[j] == old(self).entries@[j]);
                    }
                    assert(s_new[root as int] == ns);
                    assert forall|i: int|
                        0 <= i < s_new.len() implies match #[trigger] s_new[i] {
                            Slot::Link(j) => 0 <= j < i,
                            Slot::Free(cs2) => forall|k: int|
                                0 <= k < cs2.len() ==> var_free(#[trigger] cs2[k]),
                            Slot::Resolved(t2) => var_free(t2),
                        } by {
                        if i == root {
                            match entry {
                                VarEntry::Free(cs2) => {
                                    assert forall|k: int|
                                        0 <= k < tys_of(cs2@).len() implies var_free(
                                        #[trigger] tys_of(cs2@)[k],
                                    ) by {
                                        assert(tys_of(cs2@)[k] == cs2@[k]@);
                                    }
                                },
                                _ => (),
                            }
                        } else {
                            assert(s_new[i] == s_old[i]);
                            assert(store_wf(s_old));
                        }
                    }
                }
            },
            None => (),
        }
        r
    }

    /// Replace every resolved variable inside `t` by the type it is
    /// resolved to; anything else is kept as it stands.
    #[verifier::loop_isolation(false)]
    pub fn resolve(&self, t: &Type) -> (r: Type)
        requires
            self.wf(),
        ensures
            r@ == resolve_ty(self@, t@),
        decreases *t,
    {
        match t {
            Type::Unknown(v) => {
                if v.0 < self.len() {
                    let root = self.find(v.0);
                    proof {
                        assert(self@[root as int] == slot_of(self.entries@[root as int]));
                    }
                    match &self.entries[root] {
                        VarEntry::Resolved(rt) => rt.deep_clone(),
                        _ => Type::Unknown(TypeVar(v.0)),
                    }
                } else {
                    Type::Unknown(TypeVar(v.0))
                }
            },
            Type::Function(args, ret) => {
                let mut new_args: Vec<Type> = Vec::new();
                let mut i: usize = 0;
                while i < args.len()
                    invariant
                        0 <= i <= args@.len(),
                        new_args@.len() == i,
                        forall|j: int|
                            0 <= j < i ==> (#[trigger] new_args@[j])@ == resolve_ty(
                                self@,
                                args@[j]@,
                            ),
                    decreases args@.len() - i,
                {
                    new_args.push(self.resolve(&args[i]));
                    i = i + 1;
                }
                let r = Type::Function(new_args, Box::new(self.resolve(ret)));
                proof {
                    assert(r@->Function_0 =~= resolve_ty(self@, t@)->Function_0);
                }
                r
            },
            Type::Struct(fields) => {
                let mut new_fields: Vec<(String, Type)> = Vec::new();
                let mut i: usize = 0;
                while i < fields.len()
                    invariant
                        0 <= i <= fields@.len(),
                        new_fields@.len() == i,
                        forall|j: int|
                            0 <= j < i ==> (#[trigger] new_fields@[j]).0@ == fields@[j].0@
                                && new_fields@[j].1@ == resolve_ty(self@, fields@[j].1@),
                    decreases fields@.len() - i,
                {
                    new_fields.push((fields[i].0.clone(), self.resolve(&fields[i].1)));
                    i = i + 1;
                }
                let r = Type::Struct(new_fields);
                proof {
                    assert(r@->Struct_0 =~= resolve_ty(self@, t@)->Struct_0);
                }
                r
            },
            Type::Option(t1) => Type::Option(Box::new(self.resolve(t1))),
            Type::Pointer(t1) => Type::Pointer(Box::new(self.resolve(t1))),
            Type::ArrayPointer(t1) => Type::ArrayPointer(Box::new(self.resolve(t1))),
            Type::Slice(t1) => Type::Slice(Box::new(self.resolve(t1))),
            Type::Array(t1, n) => Type::Array(Box::new(self.resolve(t1)), *n),
            _ => t.deep_clone(),
        }
    }
}

/// What `resolve` yields on the model: resolved variables replaced by
/// their types, recursively; free variables and everything else kept.
pub open spec fn resolve_ty(s: Seq<Slot>, t: Ty) -> Ty
    decreases t,
    via resolve_ty_dec
{
    match t {
        Ty::Unknown(v) => {
            if v < s.len() && store_wf(s) && s[root_of(s, v as int)] is Resolved {
                s[root_of(s, v as int)]->Resolved_0
            } else {
                Ty::Unknown(v)
            }
        },
        Ty::Function(args, ret) => Ty::Function(
            Seq::new(
                args.len(),
                |i: int|
                    if 0 <= i < args.len() {
                        resolve_ty(s, args[i])
                    } else {
                        Ty::Unit
                    },
            ),
            Box::new(resolve_ty(s, *ret)),
        ),
        Ty::Struct(fields) => Ty::Struct(
            Seq::new(
                fields.len(),
                |i: int|
                    if 0 <= i < fields.len() {
                        (fields[i].0, resolve_ty(s, fields[i].1))
                    } else {
                        (Seq::empty(), Ty::Unit)
                    },
            ),
        ),
        Ty::Option(t1) => Ty::Option(Box::new(resolve_ty(s, *t1))),
        Ty::Pointer(t1) => Ty::Pointer(Box::new(resolve_ty(s, *t1))),
        Ty::ArrayPointer(t1) => Ty::ArrayPointer(Box::new(resolve_ty(s, *t1))),
        Ty::Slice(t1) => Ty::Slice(Box::new(resolve_ty(s, *t1))),
        Ty::Array(t1, n) => Ty::Array(Box::new(resolve_ty(s, *t1)), n),
        _ => t,
    }
}

#[via_fn]
proof fn resolve_ty_dec(s: Seq<Slot>, t: Ty) {
    match t {
        Ty::Function(args, ret) => {
            assert(decreases_to!(t => args));
            assert forall|i: int| 0 <= i < args.len() implies decreases_to!(t => args[i]) by {
                assert(decreases_to!(args => args[i]));
            }
        },
        Ty::Struct(fields) => {
            assert(decreases_to!(t => fields));
            assert forall|i: int| 0 <= i < fields.len() implies decreases_to!(
                t => fields[i].1,
            ) by {
                assert(decreases_to!(fields => fields[i]));
            }
        },
        _ => (),
    }
}

/// `merge` when exactly one root is resolved: the free side's non-empty
/// constraint set is bound to the resolved type.
#[verifier::loop_isolation(false)]
fn bind_types(cs: &Vec<Type>, t: &Type) -> (r: Result<VarEntry, TypeError>)
    requires
        forall|k: int| 0 <= k < cs@.len() ==> var_free(#[trigger] cs@[k]@),
        var_free(t@),
        cs@.len() > 0,
    ensures
        ({
            let br = bind_results(tys_of(cs@), t@);
            if br.len() == 0 {
                r matches Err(e) && e@ == TyErr::DisjointConstraints(tys_of(cs@), seq![t@])
            } else if br.len() == 1 {
                r matches Ok(entry) && entry matches VarEntry::Resolved(u) && u@ == br[0]
            } else {
                r matches Ok(entry) && entry matches VarEntry::Free(ks) && tys_of(ks@) == br
            }
        }),
        r matches Ok(entry) ==> match entry {
            VarEntry::Free(ks) => forall|k: int| 0 <= k < ks@.len() ==> var_free(#[trigger] ks@[k]@),
            VarEntry::Resolved(u) => var_free(u@),
            VarEntry::Link(_) => false,
        },
{
    let mut keep: Vec<Type> = Vec::new();
    let mut i: usize = 0;
    while i < cs.len()
        invariant
            0 <= i <= cs@.len(),
            tys_of(keep@) == bind_results(tys_of(cs@).subrange(0, i as int), t@),
            forall|k: int| 0 <= k < keep@.len() ==> var_free(#[trigger] keep@[k]@),
        decreases cs@.len() - i,
    {
        let ghost prefix = tys_of(cs@).subrange(0, i as int);
        let ghost prefix1 = tys_of(cs@).subrange(0, i + 1);
        proof {
            assert(prefix1.drop_last() =~= prefix);
            assert(prefix1.last() == cs@[i as int]@);
        }
        match unify_concrete(&cs[i], t) {
            Ok(u) => {
                let ghost old_keep = keep@;
                proof {
                    lemma_unify_ty_var_free(cs@[i as int]@, t@);
                }
                keep.push(u);
                proof {
                    assert(tys_of(keep@) =~= tys_of(old_keep) + seq![unify_ty(
                        cs@[i as int]@,
                        t@,
                    )->Ok_0]);
                    assert(tys_of(keep@) =~= bind_results(prefix1, t@));
                }
            },
            Err(_) => {
                proof {
                    assert(bind_results(prefix1, t@) =~= bind_results(prefix, t@));
                }
            },
        }
        i = i + 1;
    }
    proof {
        assert(tys_of(cs@).subrange(0, cs@.len() as int) =~= tys_of(cs@));
    }
    if keep.len() == 0 {
        let mut single: Vec<Type> = Vec::new();
        single.push(t.deep_clone());
        proof {
            assert(tys_of(single@) =~= seq![t@]);
        }
        Err(TypeError::DisjointConstraints(clone_types(cs), single))
    } else if keep.len() == 1 {
        match keep.pop() {
            Some(u) => {
                proof {
                    assert(u@ == bind_results(tys_of(cs@), t@)[0]);
                }
                Ok(VarEntry::Resolved(u))
            },
            None => {
                proof {
                    assert(false);
                }
                Err(TypeError::NonConcreteType)
            },
        }
    } else {
        Ok(VarEntry::Free(keep))
    }
}

} // verus!
