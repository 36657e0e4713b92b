use vstd::prelude::*;

use crate::types::PeerId;

verus! {

/// The peers' transport identities seen so far; `PeerId { id: n }` names
/// the `n`-th distinct one.
pub struct PeerBook {
    known: Vec<Vec<u8>>,
}

/// `j` is the first position of `identity` in `known`.
pub open spec fn is_first_identity(known: Seq<Seq<u8>>, identity: Seq<u8>, j: int) -> bool {
    &&& 0 <= j < known.len()
    &&& known[j] == identity
    &&& forall|k: int| 0 <= k < j ==> known[k] != identity
}

impl View for PeerBook {
    type V = Seq<Seq<u8>>;

    closed spec fn view(&self) -> Seq<Seq<u8>> {
        self.known@.map_values(|v: Vec<u8>| v@)
    }
}

fn same_bytes(a: &Vec<u8>, b: &Vec<u8>) -> (r: bool)
    ensures
        r == (a@ == b@),
{
    if a.len() != b.len() {
        return false;
    }
    let mut i: usize = 0;
    while i < a.len()
        invariant
            a@.len() == b@.len(),
            i <= a@.len(),
            forall|k: int| 0 <= k < i ==> a@[k] == b@[k],
        decreases a@.len() - i,
    {
        if a[i] != b[i] {
            return false;
        }
        i += 1;
    }
    proof {
        assert(a@ =~= b@);
    }
    true
}

impl PeerBook {
    pub fn new() -> (r: PeerBook)
        ensures
            r@ == Seq::<Seq<u8>>::empty(),
    {
        PeerBook { known: Vec::new() }
    }

    /// The peer id of `identity`: the one it was given before, or the next
    /// one. `None` only when every `u64` is taken.
    pub fn intern(&mut self, identity: Vec<u8>) -> (r: Option<PeerId>)
        ensures
            forall|j: int|
                #[trigger] is_first_identity(old(self)@, identity@, j) ==> r == Some(
                    PeerId { id: j as u64 },
                ) && final(self)@ == old(self)@,
            !old(self)@.contains(identity@) && old(self)@.len() < u64::MAX ==> r == Some(
                PeerId { id: old(self)@.len() as u64 },
            ) && final(self)@ == old(self)@.push(identity@),
            !old(self)@.contains(identity@) && old(self)@.len() >= u64::MAX ==> r == None::<
                PeerId,
            > && final(self)@ == old(self)@,
    {
        let mut i: usize = 0;
        while i < self.known.len()
            invariant
                i <= self@.len(),
                self@.len() == self.known@.len(),
                forall|k: int| 0 <= k < i ==> self@[k] != identity@,
            decreases self.known@.len() - i,
        {
            if same_bytes(&self.known[i], &identity) {
                proof {
                    assert(is_first_identity(self@, identity@, i as int));
                    assert forall|j: int| #[trigger]
                        is_first_identity(self@, identity@, j) implies j == i by {
                        if j < i {
                        } else if i < j {
                            assert(self@[i as int] == identity@);
                        }
                    }
                }
                return Some(PeerId { id: i as u64 });
            }
            i += 1;
        }
        proof {
            assert(!self@.contains(identity@));
        }
        if self.known.len() as u64 == u64::MAX {
            return None;
        }
        let n = self.known.len();
        self.known.push(identity);
        proof {
            assert(self@ =~= old(self)@.push(identity@));
        }
        Some(PeerId { id: n as u64 })
    }
}

} // verus!
