//! Reference store: names bound to commit hashes, changed only through an
//! edit that states what it expects the current target to be.
use vstd::prelude::*;
use crate::signed::{bytes_eq, copy_bytes};

verus! {

/// What an edit expects of the reference before it applies.
#[derive(Clone, Debug)]
pub enum Expected {
    /// The reference must not exist yet.
    MustNotExist,
    /// The reference must exist and point at this hash.
    MustMatch(Vec<u8>),
    /// Apply whatever the reference holds.
    Any,
}

/// Why a reference edit was refused.
#[derive(Clone, Copy, Debug, PartialEq, Eq, Structural)]
pub enum RefError {
    /// The edit's expectation did not hold; nothing was changed.
    RefConflict,
}

/// The target of the first entry named `name`.
pub open spec fn lookup(es: Seq<(Seq<u8>, Seq<u8>)>, name: Seq<u8>) -> Option<Seq<u8>>
    decreases es.len(),
{
    if es.len() == 0 {
        None
    } else if es[0].0 == name {
        Some(es[0].1)
    } else {
        lookup(es.drop_first(), name)
    }
}

/// Whether `e` admits an edit of a reference whose current target is `cur`.
pub open spec fn admits(e: Expected, cur: Option<Seq<u8>>) -> bool {
    match e {
        Expected::MustNotExist => cur is None,
        Expected::MustMatch(h) => cur == Some(h@),
        Expected::Any => true,
    }
}

/// The target of every name after `name` has been set to `target`.
pub open spec fn after_set(
    before: spec_fn(Seq<u8>) -> Option<Seq<u8>>,
    name: Seq<u8>,
    target: Seq<u8>,
) -> spec_fn(Seq<u8>) -> Option<Seq<u8>> {
    |m: Seq<u8>| if m == name { Some(target) } else { before(m) }
}

/// Reference names bound to target hashes.
pub struct RefStore {
    entries: Vec<(Vec<u8>, Vec<u8>)>,
}

/// The value of one binding: name and target.
pub open spec fn entry_view(h: (Vec<u8>, Vec<u8>)) -> (Seq<u8>, Seq<u8>) {
    (h.0@, h.1@)
}

proof fn lemma_lookup_update(es: Seq<(Seq<u8>, Seq<u8>)>, i: int, n: Seq<u8>, t: Seq<u8>, m: Seq<u8>)
    requires
        0 <= i < es.len(),
        es[i].0 == n,
        forall|j: int| 0 <= j < i ==> #[trigger] es[j].0 != n,
    ensures
        lookup(es.update(i, (n, t)), m) == if m == n { Some(t) } else { lookup(es, m) },
    decreases es.len(),
{
    let u = es.update(i, (n, t));
    if i > 0 {
        assert(u[0] == es[0]);
        assert(es[0].0 != n);
        assert(u.drop_first() =~= es.drop_first().update(i - 1, (n, t)));
        assert forall|j: int| 0 <= j < i - 1 implies #[trigger] es.drop_first()[j].0 != n by {
            assert(es.drop_first()[j] == es[j + 1]);
        }
        lemma_lookup_update(es.drop_first(), i - 1, n, t, m);
    } else {
        assert(u[0] == (n, t));
        assert(u.drop_first() =~= es.drop_first());
    }
}

proof fn lemma_lookup_push(es: Seq<(Seq<u8>, Seq<u8>)>, n: Seq<u8>, t: Seq<u8>, m: Seq<u8>)
    requires
        lookup(es, n) is None,
    ensures
        lookup(es.push((n, t)), m) == if m == n { Some(t) } else { lookup(es, m) },
    decreases es.len(),
{
    let p = es.push((n, t));
    if es.len() == 0 {
        assert(p.drop_first() =~= Seq::<(Seq<u8>, Seq<u8>)>::empty());
        assert(p[0] == (n, t));
        assert(lookup(p.drop_first(), m) is None);
    } else {
        assert(p[0] == es[0]);
        assert(es[0].0 != n);
        assert(lookup(es.drop_first(), n) is None);
        assert(p.drop_first() =~= es.drop_first().push((n, t)));
        lemma_lookup_push(es.drop_first(), n, t, m);
    }
}

impl RefStore {
    /// The target of each name: `None` where the name is not bound.
    pub closed spec fn targets(&self) -> spec_fn(Seq<u8>) -> Option<Seq<u8>> {
        let es = self.entries@.map_values(|h: (Vec<u8>, Vec<u8>)| entry_view(h));
        |m: Seq<u8>| lookup(es, m)
    }

    /// An empty store.
    pub fn new() -> (r: RefStore)
        ensures
            forall|m: Seq<u8>| (#[trigger] (r.targets())(m)) is None,
    {
        let r = RefStore { entries: Vec::new() };
        proof {
            assert forall|m: Seq<u8>| (#[trigger] (r.targets())(m)) is None by {
                assert(r.entries@.map_values(|h: (Vec<u8>, Vec<u8>)| entry_view(h)).len() == 0);
            }
        }
        r
    }

    /// The current target of `name`.
    pub fn target(&self, name: &Vec<u8>) -> (r: Option<Vec<u8>>)
        ensures
            match r {
                Some(t) => (self.targets())(name@) == Some(t@),
                None => (self.targets())(name@) is None,
            },
    {
        match self.position(name) {
            Some(i) => Some(copy_bytes(&self.entries[i].1)),
            None => None,
        }
    }

    fn position(&self, name: &Vec<u8>) -> (r: Option<usize>)
        ensures
            ({
                let es = self.entries@.map_values(|h: (Vec<u8>, Vec<u8>)| entry_view(h));
                match r {
                    Some(i) => i < es.len() && es[i as int].0 == name@ && (forall|j: int|
                        0 <= j < i ==> #[trigger] es[j].0 != name@) && lookup(es, name@) == Some(
                        es[i as int].1,
                    ),
                    None => lookup(es, name@) is None,
                }
            }),
    {
        let ghost es = self.entries@.map_values(|h: (Vec<u8>, Vec<u8>)| entry_view(h));
        let mut i: usize = 0;
        proof {
            assert(es.subrange(0, es.len() as int) =~= es);
        }
        while i < self.entries.len()
            invariant
                i <= es.len(),
                es == self.entries@.map_values(|h: (Vec<u8>, Vec<u8>)| entry_view(h)),
                forall|j: int| 0 <= j < i ==> #[trigger] es[j].0 != name@,
                lookup(es, name@) == lookup(es.subrange(i as int, es.len() as int), name@),
            decreases es.len() - i,
        {
            let ghost rest = es.subrange(i as int, es.len() as int);
            assert(rest[0] == es[i as int]);
            if bytes_eq(&self.entries[i].0, name) {
                return Some(i);
            }
            proof {
                assert(rest.drop_first() =~= es.subrange(i + 1, es.len() as int));
            }
            i = i + 1;
        }
        None
    }

    /// Points `name` at `new` if `expected` admits the current target, as one
    /// step; otherwise fails with `RefConflict` and changes nothing.
    pub fn edit(&mut self, name: &Vec<u8>, expected: &Expected, new: &Vec<u8>) -> (r: Result<(), RefError>)
        ensures
            r is Ok <==> admits(*expected, (old(self).targets())(name@)),
            r is Ok ==> forall|m: Seq<u8>|
                #[trigger] (final(self).targets())(m) == (after_set(old(self).targets(), name@, new@))(m),
            r is Err ==> r == Err::<(), RefError>(RefError::RefConflict) && final(self).targets() == old(self).targets(),
    {
        let pos = self.position(name);
        let ok = match expected {
            Expected::MustNotExist => pos.is_none(),
            Expected::MustMatch(h) => match pos {
                Some(i) => bytes_eq(&self.entries[i].1, h),
                None => false,
            },
            Expected::Any => true,
        };
        if !ok {
            return Err(RefError::RefConflict);
        }
        let ghost es = self.entries@.map_values(|h: (Vec<u8>, Vec<u8>)| entry_view(h));
        let entry = (copy_bytes(name), copy_bytes(new));
        match pos {
            Some(i) => {
                self.entries.set(i, entry);
                proof {
                    assert(self.entries@.map_values(|h: (Vec<u8>, Vec<u8>)| entry_view(h)) =~= es.update(
                        i as int,
                        (name@, new@),
                    ));
                    assert forall|m: Seq<u8>|
                        #[trigger] (self.targets())(m) == (after_set(old(self).targets(), name@, new@))(m) by {
                        lemma_lookup_update(es, i as int, name@, new@, m);
                    }
                }
            },
            None => {
                self.entries.push(entry);
                proof {
                    assert(self.entries@.map_values(|h: (Vec<u8>, Vec<u8>)| entry_view(h)) =~= es.push(
                        (name@, new@),
                    ));
                    assert forall|m: Seq<u8>|
                        #[trigger] (self.targets())(m) == (after_set(old(self).targets(), name@, new@))(m) by {
                        lemma_lookup_push(es, name@, new@, m);
                    }
                }
            },
        }
        Ok(())
    }

    /// Binds a branch to `target`: replacing an existing binding only when
    /// `overwrite` is set.
    pub fn create_branch(&mut self, name: &Vec<u8>, target: &Vec<u8>, overwrite: bool) -> (r: Result<(), RefError>)
        ensures
            r is Ok <==> (overwrite || (old(self).targets())(name@) is None),
            r is Ok ==> forall|m: Seq<u8>|
                #[trigger] (final(self).targets())(m) == (after_set(old(self).targets(), name@, target@))(m),
            r is Err ==> final(self).targets() == old(self).targets(),
    {
        let e = if overwrite { Expected::Any } else { Expected::MustNotExist };
        self.edit(name, &e, target)
    }
}

/// An edit that requires the reference to be absent succeeds once on a fresh
/// reference; a second such edit fails, and the target stays the first one.
pub proof fn lemma_create_never_overwrites(name: Seq<u8>, first: Seq<u8>, before: spec_fn(Seq<u8>) -> Option<Seq<u8>>)
    requires
        before(name) is None,
    ensures
        admits(Expected::MustNotExist, before(name)),
        !admits(Expected::MustNotExist, (after_set(before, name, first))(name)),
        (after_set(before, name, first))(name) == Some(first),
{
}

/// Creating a branch with overwrite permitted always succeeds, and after two
/// such creations the branch points at the second target.
pub proof fn lemma_branch_overwrite(
    name: Seq<u8>,
    first: Seq<u8>,
    second: Seq<u8>,
    before: spec_fn(Seq<u8>) -> Option<Seq<u8>>,
)
    ensures
        admits(Expected::Any, before(name)),
        admits(Expected::Any, (after_set(before, name, first))(name)),
        (after_set(after_set(before, name, first), name, second))(name) == Some(second),
{
}

} // verus!
