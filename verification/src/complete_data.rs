//! Putting together updates that come in parts.

use vstd::prelude::*;
use vstd::slice::slice_to_vec;

use crate::fast_path_pdu::Fragmentation;

verus! {

/// The parts of an update that have come so far.
#[derive(Debug, PartialEq)]
pub struct CompleteData {
    pub fragmented_data: Option<Vec<u8>>,
}

impl View for CompleteData {
    type V = Option<Seq<u8>>;

    open spec fn view(&self) -> Option<Seq<u8>> {
        match self.fragmented_data {
            Some(data) => Some(data@),
            None => None,
        }
    }
}

/// `pending` with another part behind it; a part that nothing came before is dropped.
pub open spec fn appended(pending: Option<Seq<u8>>, data: Seq<u8>) -> Option<Seq<u8>> {
    match pending {
        Some(earlier) => Some(earlier + data),
        None => None,
    }
}

/// What is pending after a part, and the update that it completes. A part that starts an update drops
/// what is pending.
pub open spec fn assembled(pending: Option<Seq<u8>>, data: Seq<u8>, part: Fragmentation) -> (
    Option<Seq<u8>>,
    Option<Seq<u8>>,
) {
    match part {
        Fragmentation::Single => (None, Some(data)),
        Fragmentation::First => (Some(data), None),
        Fragmentation::Next => (appended(pending, data), None),
        Fragmentation::Last => (None, appended(pending, data)),
    }
}

/// The bytes of an optional vector.
pub open spec fn vec_bytes(data: Option<Vec<u8>>) -> Option<Seq<u8>> {
    match data {
        Some(v) => Some(v@),
        None => None,
    }
}

impl CompleteData {
    pub fn new() -> (r: Self)
        ensures
            r@ == None::<Seq<u8>>,
    {
        CompleteData { fragmented_data: None }
    }

    /// Takes a part of an update. Gives back the update that it completes.
    pub fn process_data(&mut self, data: &[u8], fragmentation: Fragmentation) -> (r: Option<Vec<u8>>)
        ensures
            (final(self)@, vec_bytes(r)) == assembled(old(self)@, data@, fragmentation),
    {
        match fragmentation {
            Fragmentation::Single => {
                self.check_data_is_empty();
                Some(slice_to_vec(data))
            },
            Fragmentation::First => {
                self.check_data_is_empty();
                self.fragmented_data = Some(slice_to_vec(data));
                None
            },
            Fragmentation::Next => {
                self.append_data(data);
                None
            },
            Fragmentation::Last => {
                self.append_data(data);
                self.fragmented_data.take()
            },
        }
    }

    /// Drops what is pending.
    pub fn check_data_is_empty(&mut self)
        ensures
            final(self)@ == None::<Seq<u8>>,
    {
        self.fragmented_data = None;
    }

    /// Appends to what is pending, if anything is.
    pub fn append_data(&mut self, data: &[u8])
        ensures
            final(self)@ == appended(old(self)@, data@),
    {
        match &mut self.fragmented_data {
            Some(pending) => {
                let ghost earlier = pending@;
                pending.extend_from_slice(data);
                assert(pending@ =~= earlier + data@);
            },
            None => {},
        }
    }
}

/// What is pending after the first `n` parts of an update that comes in parts.
pub open spec fn pending_after(before: Option<Seq<u8>>, parts: Seq<Seq<u8>>, n: nat) -> Option<Seq<u8>>
    decreases n,
{
    if n == 0 {
        before
    } else if n == 1 {
        assembled(before, parts[0], Fragmentation::First).0
    } else {
        assembled(pending_after(before, parts, (n - 1) as nat), parts[n - 1], Fragmentation::Next).0
    }
}

/// An update that comes as a first part, any number of next parts and a last part is completed by
/// its last part, is the parts one after the other, and leaves nothing pending.
pub proof fn law_parts_make_the_whole(before: Option<Seq<u8>>, parts: Seq<Seq<u8>>, last: Seq<u8>)
    requires
        parts.len() >= 1,
    ensures
        assembled(pending_after(before, parts, parts.len()), last, Fragmentation::Last) == (
            None::<Seq<u8>>,
            Some(parts.flatten() + last),
        ),
{
    lemma_pending(before, parts, parts.len());
    assert(parts.take(parts.len() as int) =~= parts);
}

proof fn lemma_pending(before: Option<Seq<u8>>, parts: Seq<Seq<u8>>, n: nat)
    requires
        1 <= n <= parts.len(),
    ensures
        pending_after(before, parts, n) == Some(parts.take(n as int).flatten()),
    decreases n,
{
    let front = parts.take(n as int);
    front.lemma_flatten_and_flatten_alt_are_equivalent();
    if n == 1 {
        assert(front.drop_last() =~= Seq::empty());
        assert(Seq::<Seq<u8>>::empty().flatten_alt() =~= Seq::empty());
        assert(front.flatten() =~= parts[0]);
    } else {
        lemma_pending(before, parts, (n - 1) as nat);
        let shorter = parts.take(n - 1);
        shorter.lemma_flatten_and_flatten_alt_are_equivalent();
        assert(front.drop_last() =~= shorter);
        assert(front.flatten() =~= shorter.flatten() + parts[n - 1]);
    }
}

} // verus!
