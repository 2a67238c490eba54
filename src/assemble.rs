//! Building the bootstrap commit and embedding its signature.
use vstd::prelude::*;
use crate::commit::{Commit, CommitModel, Identity, encode, encoded};
use crate::signed::{signed, trimmed, trim, with_signature, copy_bytes};

verus! {

/// A root commit: no parents, one identity as author and committer, no
/// encoding and no extra headers.
pub open spec fn is_initial(c: CommitModel, tree: Seq<u8>, who: Identity, message: Seq<u8>) -> bool {
    &&& c.tree == tree
    &&& c.parents.len() == 0
    &&& c.author == who@
    &&& c.committer == who@
    &&& c.encoding is None
    &&& c.extra_headers.len() == 0
    &&& c.message == message
}

/// A copy of an identity.
pub fn copy_identity(who: &Identity) -> (r: Identity)
    ensures
        r@ == who@,
{
    Identity { name: copy_bytes(&who.name), email: copy_bytes(&who.email), time: who.time }
}

/// The unsigned root commit of `tree` by `who` with `message`.
pub fn initial_commit(tree: Vec<u8>, who: &Identity, message: Vec<u8>) -> (r: Commit)
    ensures
        is_initial(r@, tree@, *who, message@),
{
    let r = Commit {
        tree,
        parents: Vec::new(),
        author: copy_identity(who),
        committer: copy_identity(who),
        encoding: None,
        extra_headers: Vec::new(),
        message,
    };
    proof {
        assert(r@.parents.len() == 0);
        assert(r@.extra_headers.len() == 0);
    }
    r
}

/// The bytes that are signed: the canonical encoding of the unsigned draft.
pub fn signing_payload(draft: &Commit) -> (r: Vec<u8>)
    ensures
        r@ == encoded(draft@),
{
    encode(draft)
}

/// Embeds an armored signature, trimmed of surrounding whitespace, as a
/// `gpgsig` header after the draft's extra headers, and encodes the result.
/// Returns the signed bytes and the signed record.
pub fn attach_signature(draft: Commit, armored: &Vec<u8>) -> (r: (Vec<u8>, Commit))
    ensures
        r.1@ == signed(draft@, trimmed(armored@)),
        r.0@ == encoded(r.1@),
{
    let sig = trim(armored);
    let c = with_signature(draft, sig);
    let bytes = encode(&c);
    (bytes, c)
}

/// The first candidate key that was found, in the order tried.
pub fn first_available(found: &Vec<bool>) -> (r: Option<usize>)
    ensures
        match r {
            Some(i) => i < found@.len() && found@[i as int] && forall|j: int| 0 <= j < i ==> !#[trigger] found@[j],
            None => forall|j: int| 0 <= j < found@.len() ==> !#[trigger] found@[j],
        },
{
    let mut i: usize = 0;
    while i < found.len()
        invariant
            i <= found@.len(),
            forall|j: int| 0 <= j < i ==> !#[trigger] found@[j],
        decreases found@.len() - i,
    {
        if found[i] {
            return Some(i);
        }
        i = i + 1;
    }
    None
}

} // verus!
