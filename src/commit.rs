//! The commit record and its canonical encoding.
use vstd::prelude::*;
use crate::fold::{folded, fold_value};
use crate::text::{hex_of, dec2_of, signed_dec_of, push_hex, push_dec2, push_signed_dec, push_all};

verus! {

/// A point in time: seconds since the epoch and the UTC offset in minutes.
#[derive(Clone, Copy, Debug, PartialEq, Eq, Structural)]
pub struct Time {
    pub seconds: i64,
    pub offset_minutes: i32,
}

/// A person in the author or committer role.
#[derive(Clone, Debug)]
pub struct Identity {
    pub name: Vec<u8>,
    pub email: Vec<u8>,
    pub time: Time,
}

/// The mathematical value of an [`Identity`].
pub struct IdentityModel {
    pub name: Seq<u8>,
    pub email: Seq<u8>,
    pub time: Time,
}

impl View for Identity {
    type V = IdentityModel;

    open spec fn view(&self) -> IdentityModel {
        IdentityModel { name: self.name@, email: self.email@, time: self.time }
    }
}

/// A commit record. Hashes are raw object-id bytes; extra headers keep their
/// insertion order.
#[derive(Clone, Debug)]
pub struct Commit {
    pub tree: Vec<u8>,
    pub parents: Vec<Vec<u8>>,
    pub author: Identity,
    pub committer: Identity,
    pub encoding: Option<Vec<u8>>,
    pub extra_headers: Vec<(Vec<u8>, Vec<u8>)>,
    pub message: Vec<u8>,
}

/// The mathematical value of a [`Commit`].
pub struct CommitModel {
    pub tree: Seq<u8>,
    pub parents: Seq<Seq<u8>>,
    pub author: IdentityModel,
    pub committer: IdentityModel,
    pub encoding: Option<Seq<u8>>,
    pub extra_headers: Seq<(Seq<u8>, Seq<u8>)>,
    pub message: Seq<u8>,
}

/// The value of one extra header.
pub open spec fn header_view(h: (Vec<u8>, Vec<u8>)) -> (Seq<u8>, Seq<u8>) {
    (h.0@, h.1@)
}

/// The value of one hash.
pub open spec fn bytes_view(v: Vec<u8>) -> Seq<u8> {
    v@
}

impl View for Commit {
    type V = CommitModel;

    open spec fn view(&self) -> CommitModel {
        CommitModel {
            tree: self.tree@,
            parents: self.parents@.map_values(|p: Vec<u8>| bytes_view(p)),
            author: self.author@,
            committer: self.committer@,
            encoding: match self.encoding {
                Some(e) => Some(e@),
                None => None,
            },
            extra_headers: self.extra_headers@.map_values(|h: (Vec<u8>, Vec<u8>)| header_view(h)),
            message: self.message@,
        }
    }
}

/// The header keyword `tree`.
pub open spec fn tree_key() -> Seq<u8> {
    seq![116u8, 114u8, 101u8, 101u8]
}

/// The header keyword `parent`.
pub open spec fn parent_key() -> Seq<u8> {
    seq![112u8, 97u8, 114u8, 101u8, 110u8, 116u8]
}

/// The header keyword `author`.
pub open spec fn author_key() -> Seq<u8> {
    seq![97u8, 117u8, 116u8, 104u8, 111u8, 114u8]
}

/// The header keyword `committer`.
pub open spec fn committer_key() -> Seq<u8> {
    seq![99u8, 111u8, 109u8, 109u8, 105u8, 116u8, 116u8, 101u8, 114u8]
}

/// The header keyword `encoding`.
pub open spec fn encoding_key() -> Seq<u8> {
    seq![101u8, 110u8, 99u8, 111u8, 100u8, 105u8, 110u8, 103u8]
}

/// The header keyword `gpgsig`.
pub open spec fn gpgsig_key() -> Seq<u8> {
    seq![103u8, 112u8, 103u8, 115u8, 105u8, 103u8]
}

/// The header keyword `tree`, as bytes.
pub fn tree_word() -> (r: Vec<u8>)
    ensures
        r@ == tree_key(),
{
    let mut v: Vec<u8> = Vec::new();
    v.push(116);
    v.push(114);
    v.push(101);
    v.push(101);
    proof {
        assert(v@ =~= tree_key());
    }
    v
}

/// The header keyword `parent`, as bytes.
pub fn parent_word() -> (r: Vec<u8>)
    ensures
        r@ == parent_key(),
{
    let mut v: Vec<u8> = Vec::new();
    v.push(112);
    v.push(97);
    v.push(114);
    v.push(101);
    v.push(110);
    v.push(116);
    proof {
        assert(v@ =~= parent_key());
    }
    v
}

/// The header keyword `author`, as bytes.
pub fn author_word() -> (r: Vec<u8>)
    ensures
        r@ == author_key(),
{
    let mut v: Vec<u8> = Vec::new();
    v.push(97);
    v.push(117);
    v.push(116);
    v.push(104);
    v.push(111);
    v.push(114);
    proof {
        assert(v@ =~= author_key());
    }
    v
}

/// The header keyword `committer`, as bytes.
pub fn committer_word() -> (r: Vec<u8>)
    ensures
        r@ == committer_key(),
{
    let mut v: Vec<u8> = Vec::new();
    v.push(99);
    v.push(111);
    v.push(109);
    v.push(109);
    v.push(105);
    v.push(116);
    v.push(116);
    v.push(101);
    v.push(114);
    proof {
        assert(v@ =~= committer_key());
    }
    v
}

/// The header keyword `encoding`, as bytes.
pub fn encoding_word() -> (r: Vec<u8>)
    ensures
        r@ == encoding_key(),
{
    let mut v: Vec<u8> = Vec::new();
    v.push(101);
    v.push(110);
    v.push(99);
    v.push(111);
    v.push(100);
    v.push(105);
    v.push(110);
    v.push(103);
    proof {
        assert(v@ =~= encoding_key());
    }
    v
}

/// The header keyword `gpgsig`, as bytes.
pub fn gpgsig_word() -> (r: Vec<u8>)
    ensures
        r@ == gpgsig_key(),
{
    let mut v: Vec<u8> = Vec::new();
    v.push(103);
    v.push(112);
    v.push(103);
    v.push(115);
    v.push(105);
    v.push(103);
    proof {
        assert(v@ =~= gpgsig_key());
    }
    v
}

/// `<key> <folded value>\n`.
pub open spec fn header_line(key: Seq<u8>, value: Seq<u8>) -> Seq<u8> {
    key + seq![32u8] + folded(value) + seq![10u8]
}

/// A UTC offset as `+hhmm` or `-hhmm`.
pub open spec fn offset_text(m: int) -> Seq<u8> {
    let a = if m < 0 { -m } else { m };
    seq![if m < 0 { 45u8 } else { 43u8 }] + dec2_of((a / 60) as nat) + dec2_of((a % 60) as nat)
}

/// `<key> <name> <<email>> <seconds> <offset>\n`.
pub open spec fn identity_line(key: Seq<u8>, id: IdentityModel) -> Seq<u8> {
    key + seq![32u8] + id.name + seq![32u8, 60u8] + id.email + seq![62u8, 32u8]
        + signed_dec_of(id.time.seconds as int) + seq![32u8] + offset_text(
        id.time.offset_minutes as int,
    ) + seq![10u8]
}

/// One `parent` line per parent, in order.
pub open spec fn parent_lines(ps: Seq<Seq<u8>>) -> Seq<u8>
    decreases ps.len(),
{
    if ps.len() == 0 {
        seq![]
    } else {
        parent_lines(ps.drop_last()) + header_line(parent_key(), hex_of(ps.last()))
    }
}

/// The `encoding` line, present only with an encoding.
pub open spec fn encoding_line(e: Option<Seq<u8>>) -> Seq<u8> {
    match e {
        Some(v) => header_line(encoding_key(), v),
        None => seq![],
    }
}

/// One line per extra header, in insertion order.
pub open spec fn extra_lines(hs: Seq<(Seq<u8>, Seq<u8>)>) -> Seq<u8>
    decreases hs.len(),
{
    if hs.len() == 0 {
        seq![]
    } else {
        extra_lines(hs.drop_last()) + header_line(hs.last().0, hs.last().1)
    }
}

/// Every header line before the extra headers.
pub open spec fn fixed_lines(c: CommitModel) -> Seq<u8> {
    header_line(tree_key(), hex_of(c.tree)) + parent_lines(c.parents) + identity_line(
        author_key(),
        c.author,
    ) + identity_line(committer_key(), c.committer) + encoding_line(c.encoding)
}

/// The canonical bytes of a commit record.
pub open spec fn encoded(c: CommitModel) -> Seq<u8> {
    fixed_lines(c) + extra_lines(c.extra_headers) + seq![10u8] + c.message
}

fn push_header(out: &mut Vec<u8>, key: &Vec<u8>, value: &Vec<u8>)
    ensures
        final(out)@ == old(out)@ + header_line(key@, value@),
{
    push_all(out, key);
    out.push(32);
    let f = fold_value(value);
    push_all(out, &f);
    out.push(10);
    proof {
        assert(out@ =~= old(out)@ + header_line(key@, value@));
    }
}

fn push_offset(out: &mut Vec<u8>, m: i32)
    ensures
        final(out)@ == old(out)@ + offset_text(m as int),
{
    let a: i64 = if m < 0 { -(m as i64) } else { m as i64 };
    if m < 0 {
        out.push(45);
    } else {
        out.push(43);
    }
    push_dec2(out, (a / 60) as u64);
    push_dec2(out, (a % 60) as u64);
    proof {
        assert(out@ =~= old(out)@ + offset_text(m as int));
    }
}

fn push_identity(out: &mut Vec<u8>, key: &Vec<u8>, id: &Identity)
    ensures
        final(out)@ == old(out)@ + identity_line(key@, id@),
{
    push_all(out, key);
    out.push(32);
    push_all(out, &id.name);
    out.push(32);
    out.push(60);
    push_all(out, &id.email);
    out.push(62);
    out.push(32);
    push_signed_dec(out, id.time.seconds);
    out.push(32);
    push_offset(out, id.time.offset_minutes);
    out.push(10);
    proof {
        assert(out@ =~= old(out)@ + identity_line(key@, id@));
    }
}

/// Encodes a commit record into its canonical bytes.
pub fn encode(c: &Commit) -> (r: Vec<u8>)
    ensures
        r@ == encoded(c@),
{
    let mut out: Vec<u8> = Vec::new();
    let tree_k = tree_word();
    let mut hex: Vec<u8> = Vec::new();
    push_hex(&mut hex, &c.tree);
    push_header(&mut out, &tree_k, &hex);
    let ghost start = out@;
    let parent_k = parent_word();
    let mut i: usize = 0;
    while i < c.parents.len()
        invariant
            i <= c.parents@.len(),
            parent_k@ == parent_key(),
            out@ == start + parent_lines(c@.parents.subrange(0, i as int)),
        decreases c.parents@.len() - i,
    {
        let mut h: Vec<u8> = Vec::new();
        push_hex(&mut h, &c.parents[i]);
        push_header(&mut out, &parent_k, &h);
        proof {
            let next = c@.parents.subrange(0, i + 1);
            assert(next.drop_last() =~= c@.parents.subrange(0, i as int));
            assert(next.last() == c.parents@[i as int]@);
        }
        i = i + 1;
        proof {
            assert(out@ =~= start + parent_lines(c@.parents.subrange(0, i as int)));
        }
    }
    proof {
        assert(c@.parents.subrange(0, c@.parents.len() as int) =~= c@.parents);
    }
    let author_k = author_word();
    push_identity(&mut out, &author_k, &c.author);
    let committer_k = committer_word();
    push_identity(&mut out, &committer_k, &c.committer);
    match &c.encoding {
        Some(e) => {
            let encoding_k = encoding_word();
            push_header(&mut out, &encoding_k, e);
        },
        None => {},
    }
    proof {
        assert(out@ =~= fixed_lines(c@));
    }
    let mut j: usize = 0;
    while j < c.extra_headers.len()
        invariant
            j <= c.extra_headers@.len(),
            out@ == fixed_lines(c@) + extra_lines(c@.extra_headers.subrange(0, j as int)),
        decreases c.extra_headers@.len() - j,
    {
        let h = &c.extra_headers[j];
        push_header(&mut out, &h.0, &h.1);
        proof {
            let next = c@.extra_headers.subrange(0, j + 1);
            assert(next.drop_last() =~= c@.extra_headers.subrange(0, j as int));
            assert(next.last() == header_view(c.extra_headers@[j as int]));
        }
        j = j + 1;
        proof {
            assert(out@ =~= fixed_lines(c@) + extra_lines(c@.extra_headers.subrange(0, j as int)));
        }
    }
    proof {
        assert(c@.extra_headers.subrange(0, c@.extra_headers.len() as int) =~= c@.extra_headers);
    }
    out.push(10);
    push_all(&mut out, &c.message);
    proof {
        assert(out@ =~= encoded(c@));
    }
    out
}

/// Encoding is a function of the record's value alone: two records with the
/// same value encode to the same bytes.
pub proof fn lemma_encode_deterministic(a: CommitModel, b: CommitModel)
    requires
        a == b,
    ensures
        encoded(a) == encoded(b),
{
}

} // verus!
