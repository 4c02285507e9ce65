//! Identifiers: 128-bit values, read from text or drawn at random.

use vstd::prelude::*;

verus! {

/// The identifier that a text spells, or `None` where it spells none. This
/// names what `uuid::Uuid::parse_str` returns for the text, taken as a
/// number by `uuid::Uuid::as_u128`.
pub uninterp spec fn uuid_of_text(s: Seq<char>) -> Option<u128>;

/// The bits that every version-4 identifier shares: version nibble 4 and the
/// two variant bits `10`.
pub open spec fn is_v4(id: u128) -> bool {
    id & 0x0000_0000_0000_f000_c000_0000_0000_0000 == 0x0000_0000_0000_4000_8000_0000_0000_0000
}

/// Reads an identifier from its text form.
///
/// Trusted: calls `uuid::Uuid::parse_str` and, on success,
/// `uuid::Uuid::as_u128`. The contract only gives the result its name: the
/// parse is a function of the text alone.
#[verifier::external_body]
pub(crate) fn parse_uuid(s: &str) -> (r: Option<u128>)
    ensures
        r == uuid_of_text(s@),
{
    match uuid::Uuid::parse_str(s) {
        Ok(id) => Some(id.as_u128()),
        Err(_) => None,
    }
}

/// Draws a fresh random identifier.
///
/// Trusted: calls `uuid::Uuid::new_v4` and `uuid::Uuid::as_u128`. The value
/// is random; the contract claims only the version and variant bits that
/// `new_v4` sets on every value. `new_v4` panics where the operating system
/// gives no random bytes.
#[verifier::external_body]
pub(crate) fn new_v4() -> (id: u128)
    ensures
        is_v4(id),
{
    uuid::Uuid::new_v4().as_u128()
}

/// A source of identifiers: it hands out the identifiers it was given, in
/// order, and after them fresh random ones.
pub struct IdSource {
    given: Vec<u128>,
    next: usize,
    drawn: Ghost<Seq<u128>>,
}

impl IdSource {
    /// The source is consistent: what it has handed out so far follows what
    /// it was given.
    pub closed spec fn wf(&self) -> bool {
        &&& self.next <= self.given@.len()
        &&& self.next <= self.drawn@.len()
        &&& self.next < self.given@.len() ==> self.drawn@.len() == self.next
        &&& forall|k: int| 0 <= k < self.next ==> self.drawn@[k] == self.given@[k]
        &&& forall|k: int| self.given@.len() <= k < self.drawn@.len() ==> is_v4(self.drawn@[k])
    }

    /// The identifiers the source was given at its creation.
    pub closed spec fn given(&self) -> Seq<u128> {
        self.given@
    }

    /// Every identifier the source has handed out, oldest first.
    pub closed spec fn drawn(&self) -> Seq<u128> {
        self.drawn@
    }

    /// What the source has handed out begins with what it was given, and
    /// goes on with version-4 identifiers.
    pub proof fn lemma_drawn_follows_given(&self)
        requires
            self.wf(),
        ensures
            forall|k: int|
                0 <= k < self.drawn().len() && k < self.given().len() ==> self.drawn()[k]
                    == self.given()[k],
            forall|k: int| self.given().len() <= k < self.drawn().len() ==> is_v4(self.drawn()[k]),
    {
    }

    /// A source of random identifiers only.
    pub fn random() -> (r: IdSource)
        ensures
            r.wf(),
            r.given() == Seq::<u128>::empty(),
            r.drawn() == Seq::<u128>::empty(),
    {
        IdSource { given: Vec::new(), next: 0, drawn: Ghost(Seq::empty()) }
    }

    /// A source that hands out `ids` first.
    pub fn starting_with(ids: Vec<u128>) -> (r: IdSource)
        ensures
            r.wf(),
            r.given() == ids@,
            r.drawn() == Seq::<u128>::empty(),
    {
        IdSource { given: ids, next: 0, drawn: Ghost(Seq::empty()) }
    }

    /// Hands out the next identifier: the next given one while any is left,
    /// a fresh random one after that.
    pub fn next_id(&mut self) -> (id: u128)
        requires
            old(self).wf(),
        ensures
            final(self).wf(),
            final(self).given() == old(self).given(),
            final(self).drawn() == old(self).drawn().push(id),
            old(self).drawn().len() < old(self).given().len() ==> id == old(self).given()[old(
                self,
            ).drawn().len() as int],
            old(self).drawn().len() >= old(self).given().len() ==> is_v4(id),
    {
        let id = if self.next < self.given.len() {
            let id = self.given[self.next];
            self.next = self.next + 1;
            id
        } else {
            new_v4()
        };
        proof {
            self.drawn@ = self.drawn@.push(id);
        }
        id
    }
}

} // verus!
