use crate::il::LocalId;
use std::collections::HashMap;
use vstd::prelude::*;
use vstd::string::StringExecFns;

verus! {

#[verifier::external_type_specification]
#[verifier::external_body]
pub struct ExFxBuildHasher(rustc_hash::FxBuildHasher);

/// A map of names to local ids, hashed with `rustc_hash`'s hasher.
pub type LocalMap = HashMap<String, LocalId, rustc_hash::FxBuildHasher>;

/// The names that a map of names to local ids binds, each with its id.
pub uninterp spec fn fx_bindings(m: LocalMap) -> Map<Seq<char>, LocalId>;

/// No name bound.
pub open spec fn no_bindings() -> Map<Seq<char>, LocalId> {
    Map::empty()
}

/// `FxHashMap::default()`: a map that binds no name.
#[verifier::external_body]
fn fx_new() -> (r: LocalMap)
    ensures
        fx_bindings(r) == no_bindings(),
{
    rustc_hash::FxHashMap::default()
}

/// `HashMap::insert`: binds `name` to `id`, and gives the id it was bound to before, if any.
#[verifier::external_body]
fn fx_insert(
    m: &mut LocalMap,
    name: &str,
    id: LocalId,
) -> (r: Option<LocalId>)
    ensures
        fx_bindings(*final(m)) == fx_bindings(*old(m)).insert(name@, id),
        r == (if fx_bindings(*old(m)).contains_key(name@) {
            Some(fx_bindings(*old(m))[name@])
        } else {
            None
        }),
{
    m.insert(name.to_string(), id)
}

/// `HashMap::get`: the id that `name` is bound to, if any.
#[verifier::external_body]
fn fx_get(m: &LocalMap, name: &str) -> (r: Option<
    LocalId,
>)
    ensures
        r == (if fx_bindings(*m).contains_key(name@) {
            Some(fx_bindings(*m)[name@])
        } else {
            None
        }),
{
    m.get(name).copied()
}

/// `HashMap::remove`: unbinds `name`.
#[verifier::external_body]
fn fx_remove(m: &mut LocalMap, name: &str)
    ensures
        fx_bindings(*final(m)) == fx_bindings(*old(m)).remove(name@),
{
    m.remove(name);
}

/// Among the bindings `names` (the i-th binds `names[i]` to local id `i`), the one that `name`
/// resolves to: the last with that name.
pub open spec fn resolve_in(names: Seq<Seq<char>>, name: Seq<char>) -> Option<int>
    decreases names.len(),
{
    if names.len() == 0 {
        None
    } else if names.last() == name {
        Some(names.len() - 1)
    } else {
        resolve_in(names.drop_last(), name)
    }
}

proof fn lemma_resolve_in_bound(names: Seq<Seq<char>>, name: Seq<char>)
    ensures
        resolve_in(names, name) matches Some(i) ==> 0 <= i < names.len() && names[i] == name,
    decreases names.len(),
{
    if names.len() > 0 && names.last() != name {
        lemma_resolve_in_bound(names.drop_last(), name);
        if let Some(i) = resolve_in(names.drop_last(), name) {
            assert(names.drop_last()[i] == names[i]);
        }
    }
}

/// Local ids for the names of a program, in scopes: each new local gets the next id, a name
/// resolves to its latest binding, and dropping locals restores the bindings they shadowed.
pub struct LocalIdGenerator {
    map: LocalMap,
    vec: Vec<(String, LocalId)>,
}

impl LocalIdGenerator {
    /// The names bound, oldest first; the i-th has local id `i`.
    pub closed spec fn names(&self) -> Seq<Seq<char>> {
        self.vec@.map_values(|e: (String, LocalId)| e.0@)
    }

    pub closed spec fn wf(&self) -> bool {
        &&& forall|name: Seq<char>|
            #![trigger fx_bindings(self.map).contains_key(name)]
            fx_bindings(self.map).contains_key(name) <==> resolve_in(self.names(), name) is Some
        &&& forall|name: Seq<char>|
            fx_bindings(self.map).contains_key(name) ==> (#[trigger] fx_bindings(self.map)[name]).value()
                == resolve_in(self.names(), name)->0
        &&& forall|i: int|
            0 <= i < self.vec@.len() ==> (#[trigger] self.vec@[i]).1.value() == match resolve_in(
                self.names().take(i),
                self.names()[i],
            ) {
                Some(j) => j,
                None => i,
            }
    }

    pub fn new() -> (r: Self)
        ensures
            r.wf(),
            r.names() == Seq::<Seq<char>>::empty(),
    {
        let r = LocalIdGenerator { map: fx_new(), vec: Vec::new() };
        assert(r.names() =~= Seq::<Seq<char>>::empty());
        r
    }

    /// Binds `name` to a new local id, the number of names bound so far, and returns it.
    pub fn add_local(&mut self, name: &str) -> (r: LocalId)
        requires
            old(self).wf(),
        ensures
            final(self).wf(),
            final(self).names() == old(self).names().push(name@),
            r.value() == old(self).names().len(),
    {
        let ghost names0 = self.names();
        let id = LocalId::new(self.vec.len());
        let old_id = fx_insert(&mut self.map, name, id);
        let restore = match old_id {
            Some(old_id) => old_id,
            None => id,
        };
        self.vec.push((String::from_str(name), restore));
        proof {
            let names1 = self.names();
            assert(names1 =~= names0.push(name@));
            assert(names1.drop_last() =~= names0);
            assert(names1.take(names0.len() as int) =~= names0);
            assert forall|n: Seq<char>| #![trigger fx_bindings(self.map).contains_key(n)]
                fx_bindings(self.map).contains_key(n) <==> resolve_in(names1, n) is Some by {
                if n != name@ {
                    assert(fx_bindings(self.map).contains_key(n) == fx_bindings(old(self).map).contains_key(n));
                }
            }
            assert forall|n: Seq<char>| fx_bindings(self.map).contains_key(n) implies (
            #[trigger] fx_bindings(self.map)[n]).value() == resolve_in(names1, n)->0 by {
                if n != name@ {
                    assert(fx_bindings(self.map)[n] == fx_bindings(old(self).map)[n]);
                    assert(fx_bindings(old(self).map).contains_key(n));
                }
            }
            assert forall|i: int| 0 <= i < self.vec@.len() implies (#[trigger] self.vec@[i]).1.value()
                == match resolve_in(names1.take(i), names1[i]) {
                Some(j) => j,
                None => i,
            } by {
                if i < names0.len() {
                    assert(self.vec@[i] == old(self).vec@[i]);
                    assert(names1.take(i) =~= names0.take(i));
                    assert(names1[i] == names0[i]);
                } else {
                    assert(names1[i] == name@);
                    if fx_bindings(old(self).map).contains_key(name@) {
                        assert(resolve_in(names0, name@) is Some);
                    } else {
                        assert(resolve_in(names0, name@) is None);
                    }
                }
            }
        }
        id
    }

    /// The local id that `name` resolves to: its latest binding, if it is bound.
    pub fn resolve_local(&self, name: &str) -> (r: Option<LocalId>)
        requires
            self.wf(),
        ensures
            r is Some <==> resolve_in(self.names(), name@) is Some,
            r is Some ==> r->0.value() == resolve_in(self.names(), name@)->0,
    {
        let r = fx_get(&self.map, name);
        assert(fx_bindings(self.map).contains_key(name@) <==> resolve_in(self.names(), name@) is Some);
        r
    }

    /// Drops the `count` latest bindings, which must exist; the names they shadowed resolve as
    /// before.
    pub fn drop_local(&mut self, count: usize)
        requires
            old(self).wf(),
            count <= old(self).names().len(),
        ensures
            final(self).wf(),
            final(self).names() == old(self).names().take(old(self).names().len() - count),
    {
        let mut k: usize = 0;
        while k < count
            invariant
                self.wf(),
                k <= count,
                count <= old(self).names().len(),
                self.vec@ == old(self).vec@.take(old(self).vec@.len() - k),
                self.names() == old(self).names().take(old(self).names().len() - k),
            decreases count - k,
        {
            self.drop_last_local();
            proof {
                assert(self.vec@ =~= old(self).vec@.take(old(self).vec@.len() - (k + 1)));
                assert(self.names() =~= old(self).names().take(old(self).names().len() - (k + 1)));
            }
            k = k + 1;
        }
    }

    /// Drops the latest binding, which must exist.
    #[verifier::rlimit(50)]
    fn drop_last_local(&mut self)
        requires
            old(self).wf(),
            old(self).names().len() > 0,
        ensures
            final(self).wf(),
            final(self).vec@ == old(self).vec@.drop_last(),
    {
        let ghost names0 = self.names();
        let ghost n = names0.len();
        let ghost m0 = fx_bindings(self.map);
        let (name, id) = match self.vec.pop() {
            Some(entry) => entry,
            None => (String::new(), LocalId::new(0)),
        };
        let ghost names1 = self.names();
        proof {
            assert(names1 =~= names0.drop_last());
            assert(names0.last() == name@);
            assert(resolve_in(names0, name@) == Some(n - 1));
            assert(m0.contains_key(name@));
            assert(names0.take(n - 1) =~= names1);
            assert(old(self).vec@[n - 1] == (name, id));
            assert(id.value() == match resolve_in(names1, name@) {
                Some(j) => j,
                None => n - 1,
            });
            lemma_resolve_in_bound(names1, name@);
            crate::il::lemma_local_id_eq(m0[name@], id);
        }
        let stored = fx_get(&self.map, name.as_str());
        match stored {
            Some(stored) => {
                if stored != id {
                    fx_insert(&mut self.map, name.as_str(), id);
                } else {
                    fx_remove(&mut self.map, name.as_str());
                }
            },
            None => {},
        }
        proof {
            let m1 = fx_bindings(self.map);
            assert(m1.contains_key(name@) <==> resolve_in(names1, name@) is Some);
            assert(m1.contains_key(name@) ==> m1[name@].value() == resolve_in(names1, name@)->0);
            assert forall|m: Seq<char>| #![trigger fx_bindings(self.map).contains_key(m)]
                fx_bindings(self.map).contains_key(m) <==> resolve_in(self.names(), m) is Some by {
                if m != name@ {
                    assert(resolve_in(names0, m) == resolve_in(names1, m));
                    assert(m1.contains_key(m) == m0.contains_key(m));
                }
            }
            assert forall|m: Seq<char>| fx_bindings(self.map).contains_key(m) implies (
            #[trigger] fx_bindings(self.map)[m]).value() == resolve_in(self.names(), m)->0 by {
                if m != name@ {
                    assert(resolve_in(names0, m) == resolve_in(names1, m));
                    assert(m1[m] == m0[m]);
                    assert(m0.contains_key(m));
                }
            }
            assert forall|i: int| 0 <= i < self.vec@.len() implies (#[trigger] self.vec@[i]).1.value()
                == match resolve_in(self.names().take(i), self.names()[i]) {
                Some(j) => j,
                None => i,
            } by {
                assert(self.vec@[i] == old(self).vec@[i]);
                assert(names1.take(i) =~= names0.take(i));
                assert(names1[i] == names0[i]);
            }
        }
    }
}

/// A name bound and then dropped leaves every name resolving as before, and while it is bound
/// it resolves to its own id, the number of names bound before it.
pub proof fn law_add_then_drop(names: Seq<Seq<char>>, name: Seq<char>, other: Seq<char>)
    ensures
        names.push(name).take(names.len() as int) == names,
        resolve_in(names.push(name), name) == Some(names.len() as int),
        other != name ==> resolve_in(names.push(name), other) == resolve_in(names, other),
{
    assert(names.push(name).take(names.len() as int) =~= names);
    assert(names.push(name).drop_last() =~= names);
}

/// Any number of names bound (repeats allowed) and then dropped together leave every name
/// resolving as before: after `add_local` for each of `added`, the names are `names + added`,
/// and `drop_local(added.len())` cuts them back to `names`. While they are bound, a name among
/// them resolves to its latest binding.
pub proof fn law_adds_then_drop(names: Seq<Seq<char>>, added: Seq<Seq<char>>, n: Seq<char>)
    ensures
        (names + added).take((names + added).len() - added.len()) == names,
        resolve_in((names + added).take((names + added).len() - added.len()), n) == resolve_in(
            names,
            n,
        ),
        resolve_in(added, n) matches Some(j) ==> resolve_in(names + added, n) == Some(
            names.len() + j,
        ),
        resolve_in(added, n) is None ==> resolve_in(names + added, n) == resolve_in(names, n),
    decreases added.len(),
{
    assert((names + added).take((names + added).len() - added.len()) =~= names);
    if added.len() > 0 {
        law_adds_then_drop(names, added.drop_last(), n);
        assert((names + added).drop_last() =~= names + added.drop_last());
        assert((names + added).last() == added.last());
    } else {
        assert(names + added =~= names);
    }
}

} // verus!
