use vstd::prelude::*;

use crate::model::SaError;

verus! {

/// The sentinel head of the list. Id 0 never names a real position.
pub const LIST_HEAD_POS_ID: u64 = 0;

/// One node of the doubly-linked position registry. `prev_pos_id` and
/// `next_pos_id` are 0 at the ends of the chain; `liquid_staking_nonce` is the
/// collateral reference the position currently stands for.
#[derive(Clone, Copy, PartialEq, Eq, Structural, Debug)]
pub struct StakingPosition {
    pub prev_pos_id: u64,
    pub next_pos_id: u64,
    pub liquid_staking_nonce: u64,
}

/// The first live id of the list, or 0 when the list is empty.
pub open spec fn first_of(ord: Seq<u64>) -> u64 {
    if ord.len() == 0 {
        0u64
    } else {
        ord[0]
    }
}

/// The last live id of the list, or 0 when the list is empty.
pub open spec fn last_of(ord: Seq<u64>) -> u64 {
    if ord.len() == 0 {
        0u64
    } else {
        ord[ord.len() - 1]
    }
}

/// The id a node at place `k` of the list must name as its predecessor.
pub open spec fn prev_in(ord: Seq<u64>, k: int) -> u64 {
    if k == 0 {
        0u64
    } else {
        ord[k - 1]
    }
}

/// The id a node at place `k` of the list must name as its successor.
pub open spec fn next_in(ord: Seq<u64>, k: int) -> u64 {
    if k == ord.len() - 1 {
        0u64
    } else {
        ord[k + 1]
    }
}

pub open spec fn strictly_increasing(ord: Seq<u64>) -> bool {
    forall|k1: int, k2: int|
        0 <= k1 < k2 < ord.len() ==> #[trigger] ord[k1] < #[trigger] ord[k2]
}

/// The position registry: an arena of optional nodes indexed by position id,
/// threaded into a doubly-linked list rooted at the sentinel in slot 0. Ids
/// are assigned from the arena length and the arena only ever grows, so ids
/// increase monotonically and are never issued twice; a removed position
/// leaves its slot permanently cleared. The ghost `order` holds the live ids
/// in list order; well-formedness ties every node's links to its neighbours
/// in `order`.
pub struct StakingPositionsMapper {
    nodes: Vec<Option<StakingPosition>>,
    last_valid_id: u64,
    order: Ghost<Seq<u64>>,
}

impl StakingPositionsMapper {
    /// The live ids in list order, from the head to the tail.
    pub closed spec fn order(&self) -> Seq<u64> {
        self.order@
    }

    /// How many arena slots exist (the sentinel included); every id ever
    /// issued is below this bound.
    pub closed spec fn num_slots(&self) -> int {
        self.nodes@.len() as int
    }

    /// Whether `id` names a live (inserted and not removed) position.
    pub closed spec fn is_live(&self, id: u64) -> bool {
        &&& 1 <= id < self.nodes@.len()
        &&& self.nodes@[id as int] is Some
    }

    /// The node stored for `id`; meaningful only when `self.is_live(id)`.
    pub closed spec fn spec_node(&self, id: u64) -> StakingPosition {
        self.nodes@[id as int].unwrap()
    }

    /// The collateral reference currently held by position `id`.
    pub open spec fn spec_nonce(&self, id: u64) -> u64 {
        self.spec_node(id).liquid_staking_nonce
    }

    /// The id of the current tail, or 0 when the list is empty.
    pub closed spec fn spec_last_valid(&self) -> u64 {
        self.last_valid_id
    }

    /// Whether some live position currently holds this collateral reference.
    pub open spec fn has_live_nonce(&self, nonce: u64) -> bool {
        exists|id: u64| #[trigger] self.is_live(id) && self.spec_nonce(id) == nonce
    }

    pub closed spec fn wf(&self) -> bool {
        let nodes = self.nodes@;
        let ord = self.order@;
        &&& 1 <= nodes.len() <= u32::MAX
        &&& nodes[0] is Some
        &&& nodes[0].unwrap().prev_pos_id == 0
        &&& nodes[0].unwrap().liquid_staking_nonce == 0
        &&& nodes[0].unwrap().next_pos_id == first_of(ord)
        &&& forall|k: int| 0 <= k < ord.len() ==> 1 <= #[trigger] ord[k] < nodes.len()
        &&& strictly_increasing(ord)
        &&& forall|k: int| 0 <= k < ord.len() ==> nodes[#[trigger] ord[k] as int] is Some
        &&& forall|id: int|
            1 <= id < nodes.len() && nodes[id] is Some ==> ord.contains(id as u64)
        &&& forall|k: int|
            0 <= k < ord.len() ==> (#[trigger] nodes[ord[k] as int]).unwrap().prev_pos_id
                == prev_in(ord, k)
        &&& forall|k: int|
            0 <= k < ord.len() ==> (#[trigger] nodes[ord[k] as int]).unwrap().next_pos_id
                == next_in(ord, k)
        &&& self.last_valid_id == last_of(ord)
        &&& forall|k1: int, k2: int|
            0 <= k1 < k2 < ord.len() ==> (#[trigger] nodes[ord[k1] as int]).unwrap().liquid_staking_nonce
                != (#[trigger] nodes[ord[k2] as int]).unwrap().liquid_staking_nonce
    }

    /// A fresh registry holding only the sentinel head.
    pub fn new() -> (r: Self)
        ensures
            r.wf(),
            r.order() == Seq::<u64>::empty(),
            r.num_slots() == 1,
            r.spec_last_valid() == 0,
    {
        let mut nodes: Vec<Option<StakingPosition>> = Vec::new();
        nodes.push(
            Some(
                StakingPosition {
                    prev_pos_id: 0,
                    next_pos_id: 0,
                    liquid_staking_nonce: 0,
                },
            ),
        );
        let r = StakingPositionsMapper { nodes, last_valid_id: 0, order: Ghost(Seq::empty()) };
        assert(r.order@ =~= Seq::<u64>::empty());
        r
    }

    /// Looks a position up, rejecting the sentinel id and removed or
    /// never-issued ids.
    pub fn get_staking_position(&self, pos_id: u64) -> (r: Result<StakingPosition, SaError>)
        ensures
            r is Err <==> !self.is_live(pos_id),
            r matches Err(e) ==> e == SaError::InvalidStakingPositionId,
            r matches Ok(p) ==> self.is_live(pos_id) && p == self.spec_node(pos_id),
    {
        if pos_id == LIST_HEAD_POS_ID {
            return Err(SaError::InvalidStakingPositionId);
        }
        if pos_id >= self.nodes.len() as u64 {
            return Err(SaError::InvalidStakingPositionId);
        }
        match self.nodes[pos_id as usize] {
            Some(pos) => Ok(pos),
            None => Err(SaError::InvalidStakingPositionId),
        }
    }

    /// What `add_staking_position` does: for a reference already held by a
    /// live position the registry is untouched and the holder's id returned;
    /// for a fresh reference a new tail node is appended under a fresh id.
    /// Ids are issued from the ever-growing arena length, so an id, once
    /// issued, is never issued again, even after its position was removed.
    pub open spec fn add_effect(pre: Self, post: Self, nonce: u64, id: u64) -> bool {
        if pre.has_live_nonce(nonce) {
            &&& post == pre
            &&& pre.is_live(id)
            &&& pre.spec_nonce(id) == nonce
        } else {
            &&& id as int == pre.num_slots()
            &&& post.order() == pre.order().push(id)
            &&& post.spec_last_valid() == id
            &&& post.num_slots() == pre.num_slots() + 1
            &&& forall|id2: u64| post.is_live(id2) <==> (pre.is_live(id2) || id2 == id)
            &&& post.spec_node(id) == (StakingPosition {
                prev_pos_id: pre.spec_last_valid(),
                next_pos_id: 0,
                liquid_staking_nonce: nonce,
            })
            &&& forall|id2: u64|
                pre.is_live(id2) && id2 != pre.spec_last_valid() ==> post.spec_node(id2)
                    == pre.spec_node(id2)
            &&& pre.order().len() > 0 ==> post.spec_node(pre.spec_last_valid()) == (StakingPosition {
                prev_pos_id: pre.spec_node(pre.spec_last_valid()).prev_pos_id,
                next_pos_id: id,
                liquid_staking_nonce: pre.spec_node(pre.spec_last_valid()).liquid_staking_nonce,
            })
        }
    }

    /// How the arena representation changes when a fresh node is appended:
    /// the old tail's successor link is rewritten, then the new node is
    /// pushed into a brand-new slot, so its id was never in use before.
    spec fn add_fresh_rep(pre: Self, post: Self, nonce: u64, new_id: u64) -> bool {
        let tail = pre.nodes@[pre.last_valid_id as int].unwrap();
        let tail_updated = StakingPosition {
            prev_pos_id: tail.prev_pos_id,
            next_pos_id: new_id,
            liquid_staking_nonce: tail.liquid_staking_nonce,
        };
        let mid = pre.nodes@.update(pre.last_valid_id as int, Some(tail_updated));
        let new_node = StakingPosition {
            prev_pos_id: pre.last_valid_id,
            next_pos_id: 0,
            liquid_staking_nonce: nonce,
        };
        &&& new_id as int == pre.nodes@.len()
        &&& post.last_valid_id == new_id
        &&& post.order@ == pre.order@.push(new_id)
        &&& post.nodes@ == mid.push(Some(new_node))
    }

    /// Appending a fresh node as `add_fresh_rep` describes keeps the
    /// registry well-formed.
    #[verifier::rlimit(100)]
    proof fn lemma_add_fresh_wf(pre: Self, post: Self, nonce: u64, new_id: u64)
        requires
            pre.wf(),
            pre.nodes@.len() < u32::MAX,
            !pre.has_live_nonce(nonce),
            Self::add_fresh_rep(pre, post, nonce, new_id),
        ensures
            post.wf(),
    {
        let ord = pre.order@;
        let ord2 = post.order@;
        let prev_last_id = pre.last_valid_id;
        assert forall|k: int| 0 <= k < ord.len() implies ord2[k] == ord[k] by {}
        assert(ord2[ord2.len() - 1] == new_id);
        if ord.len() > 0 {
            assert(ord[ord.len() - 1] == last_of(ord));
            assert(last_of(ord) == prev_last_id);
            assert(prev_last_id >= 1);
        }
        // every pre-existing live slot other than the old tail is untouched
        assert forall|id2: u64| pre.is_live(id2) && id2 != prev_last_id
            implies post.nodes@[id2 as int] == pre.nodes@[id2 as int] by {
            assert(pre.order@.contains(id2));
            let k = choose|k: int| 0 <= k < ord.len() && ord[k] == id2;
            assert(ord[k] <= last_of(ord));
        }
        assert(post.wf()) by {
            assert forall|k: int| 0 <= k < ord2.len() implies 1 <= #[trigger] ord2[k]
                < post.nodes@.len() by {
                if k < ord.len() {
                    assert(ord2[k] == ord[k]);
                }
            }
            assert(strictly_increasing(ord2)) by {
                assert forall|k: int| 0 < k < ord2.len() implies ord2[k - 1]
                    < #[trigger] ord2[k] by {
                    if k < ord.len() {
                        assert(ord2[k] == ord[k] && ord2[k - 1] == ord[k - 1]);
                    } else {
                        if ord.len() > 0 {
                            assert(ord2[k - 1] == ord[ord.len() - 1]);
                            assert(1 <= ord[ord.len() - 1] < pre.nodes@.len());
                        }
                    }
                }
            }
            assert forall|k: int| 0 <= k < ord2.len() implies post.nodes@[#[trigger] ord2[k] as int]
                is Some by {
                if k < ord.len() {
                    assert(ord2[k] == ord[k]);
                    assert(pre.is_live(ord[k]));
                }
            }
            assert forall|id2: int|
                1 <= id2 < post.nodes@.len() && post.nodes@[id2] is Some implies ord2.contains(
                id2 as u64) by {
                if id2 == new_id as int {
                    assert(ord2[ord2.len() - 1] == new_id);
                } else if id2 == prev_last_id as int && ord.len() > 0 {
                    let k = choose|k: int| 0 <= k < ord.len() && ord[k] == prev_last_id;
                    assert(ord2[k] == id2 as u64);
                } else {
                    assert(pre.nodes@[id2] is Some);
                    assert(ord.contains(id2 as u64));
                    let k = choose|k: int| 0 <= k < ord.len() && ord[k] == id2 as u64;
                    assert(ord2[k] == id2 as u64);
                }
            }
            assert forall|k: int| 0 <= k < ord2.len() implies (#[trigger] post.nodes@[ord2[k] as int]).unwrap().prev_pos_id
                == prev_in(ord2, k) && (post.nodes@[ord2[k] as int]).unwrap().next_pos_id
                == next_in(ord2, k) by {
                if k < ord.len() - 1 {
                    assert(ord2[k] == ord[k]);
                    assert(ord[k] < last_of(ord));
                    assert(pre.is_live(ord[k]));
                    assert(post.nodes@[ord[k] as int] == pre.nodes@[ord[k] as int]);
                    assert(prev_in(ord2, k) == prev_in(ord, k));
                    assert(next_in(ord2, k) == next_in(ord, k));
                } else if k == ord.len() - 1 {
                    // the old tail: only its successor link changed
                    assert(ord2[k] == ord[k]);
                    assert(ord[k] == prev_last_id);
                    assert(prev_in(ord2, k) == prev_in(ord, k));
                    assert(next_in(ord2, k) == new_id);
                } else {
                    // the new tail node itself
                    assert(ord2[k] == new_id);
                    assert(prev_in(ord2, k) == last_of(ord));
                }
            }
            assert forall|k1: int, k2: int| 0 <= k1 < k2 < ord2.len() implies (
            #[trigger] post.nodes@[ord2[k1] as int]).unwrap().liquid_staking_nonce != (
            #[trigger] post.nodes@[ord2[k2] as int]).unwrap().liquid_staking_nonce by {
                if k2 < ord.len() {
                    assert(pre.is_live(ord[k1]) && pre.is_live(ord[k2]));
                    assert(post.nodes@[ord[k1] as int].unwrap().liquid_staking_nonce
                        == pre.nodes@[ord[k1] as int].unwrap().liquid_staking_nonce);
                    assert(post.nodes@[ord[k2] as int].unwrap().liquid_staking_nonce
                        == pre.nodes@[ord[k2] as int].unwrap().liquid_staking_nonce);
                } else {
                    // k2 names the new node; its reference matches no live one
                    assert(ord2[k2] == new_id);
                    assert(pre.is_live(ord[k1]));
                    assert(post.nodes@[ord[k1] as int].unwrap().liquid_staking_nonce
                        == pre.spec_nonce(ord[k1]));
                    assert(pre.spec_nonce(ord[k1]) != nonce);
                }
            }
        }
    }

    /// Appending a fresh node as `add_fresh_rep` describes realises the
    /// append branch of `add_effect`.
    #[verifier::rlimit(100)]
    proof fn lemma_add_fresh(pre: Self, post: Self, nonce: u64, new_id: u64)
        requires
            pre.wf(),
            pre.nodes@.len() < u32::MAX,
            !pre.has_live_nonce(nonce),
            Self::add_fresh_rep(pre, post, nonce, new_id),
        ensures
            post.wf(),
            Self::add_effect(pre, post, nonce, new_id),
    {
        Self::lemma_add_fresh_wf(pre, post, nonce, new_id);
        let ord = pre.order@;
        let ord2 = post.order@;
        let prev_last_id = pre.last_valid_id;
        if ord.len() > 0 {
            assert(ord[ord.len() - 1] == last_of(ord));
            assert(prev_last_id >= 1);
        }
        assert forall|id2: u64| pre.is_live(id2) && id2 != prev_last_id
            implies post.nodes@[id2 as int] == pre.nodes@[id2 as int] by {
            assert(pre.order@.contains(id2));
            let k = choose|k: int| 0 <= k < ord.len() && ord[k] == id2;
            assert(ord[k] <= last_of(ord));
        }
        assert(Self::add_effect(pre, post, nonce, new_id)) by {
            assert forall|id2: u64| post.is_live(id2) <==> (pre.is_live(id2) || id2 == new_id)
                by {
                if post.is_live(id2) && id2 != new_id {
                    if id2 == prev_last_id && ord.len() > 0 {
                        assert(pre.is_live(id2));
                    } else if id2 != prev_last_id {
                        assert(post.nodes@[id2 as int] == pre.nodes@[id2 as int]);
                    }
                }
            }
        }
    }

    /// Scans the arena for the live position holding a collateral reference;
    /// this is the reverse lookup that keeps insertion idempotent.
    pub fn find_pos_id_by_nonce(&self, nonce: u64) -> (r: Option<u64>)
        requires
            self.wf(),
        ensures
            match r {
                Some(id) => self.is_live(id) && self.spec_nonce(id) == nonce,
                None => !self.has_live_nonce(nonce),
            },
    {
        let n: usize = self.nodes.len();
        let mut i: usize = 1;
        while i < n
            invariant
                1 <= i <= n,
                n == self.nodes@.len(),
                forall|j: int|
                    1 <= j < i ==> !(self.nodes@[j] is Some
                        && (#[trigger] self.nodes@[j]).unwrap().liquid_staking_nonce == nonce),
            decreases n - i,
        {
            match self.nodes[i] {
                Some(p) => {
                    if p.liquid_staking_nonce == nonce {
                        return Some(i as u64);
                    }
                },
                None => {},
            }
            i += 1;
        }
        proof {
            assert(!self.has_live_nonce(nonce)) by {
                if self.has_live_nonce(nonce) {
                    let w = choose|id2: u64|
                        #[trigger] self.is_live(id2) && self.spec_nonce(id2) == nonce;
                    assert(self.nodes@[w as int] is Some);
                }
            }
        }
        None
    }

    /// Inserts a position for `liquid_staking_nonce` at the tail, or returns
    /// the id already holding that reference (duplicate pledges of the same
    /// collateral unit are idempotent).
    #[verifier::rlimit(100)]
    pub fn add_staking_position(&mut self, liquid_staking_nonce: u64) -> (id: u64)
        requires
            old(self).wf(),
            old(self).num_slots() < u32::MAX,
        ensures
            final(self).wf(),
            Self::add_effect(*old(self), *final(self), liquid_staking_nonce, id),
    {
        match self.find_pos_id_by_nonce(liquid_staking_nonce) {
            Some(existing_id) => {
                return existing_id;
            },
            None => {},
        }
        proof {
            if self.order@.len() > 0 {
                    assert(self.order@[self.order@.len() - 1] == last_of(self.order@));
                assert(1 <= self.last_valid_id < self.nodes@.len());
                assert(self.nodes@[self.last_valid_id as int] is Some);
            } else {
                assert(self.last_valid_id == 0);
                assert(self.nodes@[0] is Some);
            }
        }
        let ghost pre: StakingPositionsMapper = *self;
        let prev_last_id: u64 = self.last_valid_id;
        let new_id: u64 = self.nodes.len() as u64;

        let tail_idx: usize = prev_last_id as usize;
        match self.nodes[tail_idx] {
            Some(tail_node) => {
                let updated = StakingPosition {
                    prev_pos_id: tail_node.prev_pos_id,
                    next_pos_id: new_id,
                    liquid_staking_nonce: tail_node.liquid_staking_nonce,
                };
                self.nodes.set(tail_idx, Some(updated));
            },
            None => {
                proof {
                    assert(false);
                }
            },
        }

        let new_node = StakingPosition {
            prev_pos_id: prev_last_id,
            next_pos_id: 0,
            liquid_staking_nonce,
        };
        self.nodes.push(Some(new_node));
        self.last_valid_id = new_id;
        self.order = Ghost(self.order@.push(new_id));

        proof {
            Self::lemma_add_fresh(pre, *self, liquid_staking_nonce, new_id);
        }
        new_id
    }

    /// What `remove_staking_position` does on success: the node leaves the
    /// list, its neighbours are spliced together directly, and the tail id
    /// falls back to the predecessor when the tail itself is removed. The
    /// surviving positions keep their ids and collateral references.
    pub open spec fn remove_effect(pre: Self, post: Self, pos_id: u64) -> bool {
        let k = pre.order().index_of(pos_id);
        &&& pre.is_live(pos_id)
        &&& post.order() == pre.order().remove(k)
        &&& post.num_slots() == pre.num_slots()
        &&& forall|id2: u64| post.is_live(id2) <==> (pre.is_live(id2) && id2 != pos_id)
        &&& forall|id2: u64|
            #[trigger] post.is_live(id2) ==> post.spec_nonce(id2) == pre.spec_nonce(id2)
        &&& post.spec_last_valid() == last_of(post.order())
    }

    /// How the arena representation changes when a live node is unlinked:
    /// the predecessor's successor link jumps over it, an existing successor
    /// points back to the predecessor, and the slot itself is cleared.
    spec fn remove_rep(pre: Self, post: Self, pos_id: u64) -> bool {
        let pos = pre.nodes@[pos_id as int].unwrap();
        let prev = pre.nodes@[pos.prev_pos_id as int].unwrap();
        let prev_updated = StakingPosition {
            prev_pos_id: prev.prev_pos_id,
            next_pos_id: pos.next_pos_id,
            liquid_staking_nonce: prev.liquid_staking_nonce,
        };
        let mid1 = pre.nodes@.update(pos.prev_pos_id as int, Some(prev_updated));
        let mid2 = if pos.next_pos_id != 0 {
            let nx = pre.nodes@[pos.next_pos_id as int].unwrap();
            mid1.update(
                pos.next_pos_id as int,
                Some(
                    StakingPosition {
                        prev_pos_id: pos.prev_pos_id,
                        next_pos_id: nx.next_pos_id,
                        liquid_staking_nonce: nx.liquid_staking_nonce,
                    },
                ),
            )
        } else {
            mid1
        };
        &&& post.nodes@ == mid2.update(pos_id as int, None::<StakingPosition>)
        &&& post.last_valid_id == if pos_id == pre.last_valid_id {
            pos.prev_pos_id
        } else {
            pre.last_valid_id
        }
        &&& post.order@ == pre.order@.remove(pre.order@.index_of(pos_id))
    }

    /// The basic facts about the place a live id holds in the list order.
    #[verifier::rlimit(100)]
    pub proof fn lemma_live_index(&self, pos_id: u64) -> (k: int)
        requires
            self.wf(),
            self.is_live(pos_id),
        ensures
            0 <= k < self.order().len(),
            self.order()[k] == pos_id,
            k == self.order().index_of(pos_id),
            self.spec_node(pos_id).prev_pos_id == prev_in(self.order(), k),
            self.spec_node(pos_id).next_pos_id == next_in(self.order(), k),
    {
        let ord = self.order@;
        assert(ord.contains(pos_id));
        let k = ord.index_of(pos_id);
        assert(0 <= k < ord.len() && ord[k] == pos_id);
        k
    }

    /// The slot-by-slot picture of a removal, with the update chains already
    /// resolved: only the removed node and its two neighbours change.
    spec fn remove_pointwise(pre: Self, post: Self, pos_id: u64) -> bool {
        let pos = pre.spec_node(pos_id);
        let prev_id = pos.prev_pos_id;
        let next_id = pos.next_pos_id;
        &&& post.nodes@.len() == pre.nodes@.len()
        &&& post.order@ == pre.order@.remove(pre.order@.index_of(pos_id))
        &&& post.last_valid_id == if pos_id == pre.last_valid_id {
            prev_id
        } else {
            pre.last_valid_id
        }
        &&& post.nodes@[pos_id as int] is None
        &&& post.nodes@[prev_id as int] == Some(
            StakingPosition {
                prev_pos_id: pre.nodes@[prev_id as int].unwrap().prev_pos_id,
                next_pos_id: next_id,
                liquid_staking_nonce: pre.nodes@[prev_id as int].unwrap().liquid_staking_nonce,
            },
        )
        &&& next_id != 0 ==> post.nodes@[next_id as int] == Some(
            StakingPosition {
                prev_pos_id: prev_id,
                next_pos_id: pre.nodes@[next_id as int].unwrap().next_pos_id,
                liquid_staking_nonce: pre.nodes@[next_id as int].unwrap().liquid_staking_nonce,
            },
        )
        &&& forall|i: int|
            0 <= i < pre.nodes@.len() && i != prev_id as int && i != pos_id as int && (next_id
                == 0 || i != next_id as int) ==> #[trigger] post.nodes@[i] == pre.nodes@[i]
    }

    /// Resolves the representation-level splice into its slot-by-slot form.
    #[verifier::rlimit(100)]
    #[verifier::spinoff_prover]
    proof fn lemma_remove_pointwise(pre: Self, post: Self, pos_id: u64)
        requires
            pre.wf(),
            pre.is_live(pos_id),
            Self::remove_rep(pre, post, pos_id),
        ensures
            Self::remove_pointwise(pre, post, pos_id),
    {
        let ord = pre.order@;
        let k0 = pre.lemma_live_index(pos_id);
        let pos = pre.nodes@[pos_id as int].unwrap();
        let prev_id = pos.prev_pos_id;
        let next_id = pos.next_pos_id;
        assert(prev_id == prev_in(ord, k0) && next_id == next_in(ord, k0));
        if k0 > 0 {
            assert(prev_id == ord[k0 - 1]);
            assert(pre.is_live(prev_id));
        }
        if k0 < ord.len() - 1 {
            assert(next_id == ord[k0 + 1]);
            assert(pre.is_live(next_id));
        }
        assert(prev_id != pos_id);
        assert(next_id != pos_id);
        if next_id != 0 {
            assert(next_id != prev_id);
        }
        assert(post.nodes@.len() == pre.nodes@.len());
        assert(post.nodes@[pos_id as int] is None);
        assert(post.nodes@[prev_id as int] == Some(
            StakingPosition {
                prev_pos_id: pre.nodes@[prev_id as int].unwrap().prev_pos_id,
                next_pos_id: next_id,
                liquid_staking_nonce: pre.nodes@[prev_id as int].unwrap().liquid_staking_nonce,
            },
        ));
        if next_id != 0 {
            assert(post.nodes@[next_id as int] == Some(
                StakingPosition {
                    prev_pos_id: prev_id,
                    next_pos_id: pre.nodes@[next_id as int].unwrap().next_pos_id,
                    liquid_staking_nonce: pre.nodes@[next_id as int].unwrap().liquid_staking_nonce,
                },
            ));
        }
        assert forall|i: int|
            0 <= i < pre.nodes@.len() && i != prev_id as int && i != pos_id as int && (next_id
                == 0 || i != next_id as int) implies #[trigger] post.nodes@[i] == pre.nodes@[i] by {}
    }

    /// The index bookkeeping of a removal: the shortened order is the old one
    /// with place `k0` cut out.
    #[verifier::rlimit(100)]
    proof fn lemma_remove_index(pre: Self, post: Self, pos_id: u64) -> (k0: int)
        requires
            pre.wf(),
            pre.is_live(pos_id),
            Self::remove_pointwise(pre, post, pos_id),
        ensures
            0 <= k0 < pre.order@.len(),
            pre.order@[k0] == pos_id,
            k0 == pre.order@.index_of(pos_id),
            post.order@.len() == pre.order@.len() - 1,
            forall|j: int| 0 <= j < k0 ==> #[trigger] post.order@[j] == pre.order@[j],
            forall|j: int|
                k0 <= j < post.order@.len() ==> #[trigger] post.order@[j] == pre.order@[j + 1],
            pre.spec_node(pos_id).prev_pos_id == prev_in(pre.order@, k0),
            pre.spec_node(pos_id).next_pos_id == next_in(pre.order@, k0),
            k0 > 0 ==> pre.is_live(prev_in(pre.order@, k0)),
            k0 < pre.order@.len() - 1 ==> pre.is_live(next_in(pre.order@, k0)),
    {
        let k0 = pre.lemma_live_index(pos_id);
        let ord = pre.order@;
        if k0 > 0 {
            assert(ord[k0 - 1] == prev_in(ord, k0));
        }
        if k0 < ord.len() - 1 {
            assert(ord[k0 + 1] == next_in(ord, k0));
        }
        k0
    }

    /// After the splice, the shortened order is still a strictly increasing
    /// run of live slot indices.
    #[verifier::rlimit(100)]
    proof fn lemma_remove_order(pre: Self, post: Self, pos_id: u64)
        requires
            pre.wf(),
            pre.is_live(pos_id),
            Self::remove_pointwise(pre, post, pos_id),
        ensures
            forall|k: int| 0 <= k < post.order@.len() ==> 1 <= #[trigger] post.order@[k]
                < post.nodes@.len(),
            strictly_increasing(post.order@),
            forall|k: int|
                0 <= k < post.order@.len() ==> post.nodes@[#[trigger] post.order@[k] as int]
                    is Some,
    {
        let ord = pre.order@;
        let ord2 = post.order@;
        let k0 = Self::lemma_remove_index(pre, post, pos_id);
        let pos = pre.spec_node(pos_id);
        assert forall|k: int| 0 <= k < ord2.len() implies 1 <= #[trigger] ord2[k]
            < post.nodes@.len() by {
            if k < k0 {
                assert(ord2[k] == ord[k]);
            } else {
                assert(ord2[k] == ord[k + 1]);
            }
        }
        assert(strictly_increasing(ord2)) by {
            assert forall|j1: int, j2: int| 0 <= j1 < j2 < ord2.len() implies #[trigger] ord2[j1]
                < #[trigger] ord2[j2] by {
                let m1 = if j1 < k0 { j1 } else { j1 + 1 };
                let m2 = if j2 < k0 { j2 } else { j2 + 1 };
                assert(ord2[j1] == ord[m1] && ord2[j2] == ord[m2]);
            }
        }
        assert forall|k: int| 0 <= k < ord2.len() implies post.nodes@[#[trigger] ord2[k] as int]
            is Some by {
            let m = if k < k0 { k } else { k + 1 };
            assert(ord2[k] == ord[m]);
            assert(pre.is_live(ord[m]));
            assert(ord[m] != pos_id);
            if ord[m] as int != pos.prev_pos_id as int && ord[m] as int != pos.next_pos_id as int {
                assert(post.nodes@[ord[m] as int] == pre.nodes@[ord[m] as int]);
            }
        }
    }

    /// After the splice, every occupied slot still appears in the order.
    #[verifier::rlimit(100)]
    proof fn lemma_remove_order_contains(pre: Self, post: Self, pos_id: u64)
        requires
            pre.wf(),
            pre.is_live(pos_id),
            Self::remove_pointwise(pre, post, pos_id),
        ensures
            forall|id2: int|
                1 <= id2 < post.nodes@.len() && post.nodes@[id2] is Some ==> post.order@.contains(
                    id2 as u64,
                ),
    {
        let ord = pre.order@;
        let ord2 = post.order@;
        let k0 = Self::lemma_remove_index(pre, post, pos_id);
        let pos = pre.spec_node(pos_id);
        assert forall|id2: int|
            1 <= id2 < post.nodes@.len() && post.nodes@[id2] is Some implies ord2.contains(
            id2 as u64) by {
            assert(pre.nodes@[id2] is Some) by {
                if id2 != pos.prev_pos_id as int && id2 != pos.next_pos_id as int && id2
                    != pos_id as int {
                    assert(post.nodes@[id2] == pre.nodes@[id2]);
                } else if id2 == pos.prev_pos_id as int {
                    assert(post.nodes@[id2] is Some);
                }
            }
            assert(ord.contains(id2 as u64));
            let m = choose|m: int| 0 <= m < ord.len() && ord[m] == id2 as u64;
            if m < k0 {
                assert(ord2[m] == id2 as u64);
            } else if m > k0 {
                assert(ord2[m - 1] == id2 as u64);
            } else {
                assert(id2 as u64 == pos_id);
            }
        }
    }

    /// After the splice, the surviving positions still hold pairwise distinct
    /// collateral references.
    #[verifier::rlimit(100)]
    proof fn lemma_remove_nonces(pre: Self, post: Self, pos_id: u64)
        requires
            pre.wf(),
            pre.is_live(pos_id),
            Self::remove_pointwise(pre, post, pos_id),
        ensures
            forall|k1: int, k2: int|
                0 <= k1 < k2 < post.order@.len() ==> (#[trigger] post.nodes@[post.order@[k1] as int]).unwrap().liquid_staking_nonce
                    != (#[trigger] post.nodes@[post.order@[k2] as int]).unwrap().liquid_staking_nonce,
            forall|id2: u64|
                pre.is_live(id2) && id2 != pos_id ==> #[trigger] post.nodes@[id2 as int] is Some
                    && post.nodes@[id2 as int].unwrap().liquid_staking_nonce
                    == pre.nodes@[id2 as int].unwrap().liquid_staking_nonce,
    {
        let ord = pre.order@;
        let ord2 = post.order@;
        let k0 = Self::lemma_remove_index(pre, post, pos_id);
        let pos = pre.spec_node(pos_id);
        assert forall|id2: u64| pre.is_live(id2) && id2 != pos_id implies #[trigger] post.nodes@[id2 as int]
            is Some && post.nodes@[id2 as int].unwrap().liquid_staking_nonce
            == pre.nodes@[id2 as int].unwrap().liquid_staking_nonce by {
            if id2 as int != pos.prev_pos_id as int && id2 as int != pos.next_pos_id as int {
                assert(post.nodes@[id2 as int] == pre.nodes@[id2 as int]);
            }
        }
        assert forall|k1: int, k2: int| 0 <= k1 < k2 < ord2.len() implies (
        #[trigger] post.nodes@[ord2[k1] as int]).unwrap().liquid_staking_nonce != (
        #[trigger] post.nodes@[ord2[k2] as int]).unwrap().liquid_staking_nonce by {
            let m1 = if k1 < k0 { k1 } else { k1 + 1 };
            let m2 = if k2 < k0 { k2 } else { k2 + 1 };
            assert(ord2[k1] == ord[m1] && ord2[k2] == ord[m2]);
            assert(pre.is_live(ord[m1]) && pre.is_live(ord[m2]));
            assert(ord[m1] != pos_id && ord[m2] != pos_id);
            assert(pre.nodes@[ord[m1] as int].unwrap().liquid_staking_nonce
                != pre.nodes@[ord[m2] as int].unwrap().liquid_staking_nonce);
        }
    }

    /// After the splice, every remaining node's links match its new
    /// neighbours in the shortened order.
    #[verifier::rlimit(100)]
    proof fn lemma_remove_links(pre: Self, post: Self, pos_id: u64)
        requires
            pre.wf(),
            pre.is_live(pos_id),
            Self::remove_pointwise(pre, post, pos_id),
        ensures
            forall|j: int|
                0 <= j < post.order@.len() ==> (#[trigger] post.nodes@[post.order@[j] as int]).unwrap().prev_pos_id
                    == prev_in(post.order@, j) && (post.nodes@[post.order@[j] as int]).unwrap().next_pos_id
                    == next_in(post.order@, j),
    {
        let ord = pre.order@;
        let ord2 = post.order@;
        let k0 = Self::lemma_remove_index(pre, post, pos_id);
        let pos = pre.spec_node(pos_id);
        let prev_id = pos.prev_pos_id;
        let next_id = pos.next_pos_id;
        assert forall|j: int| 0 <= j < ord2.len() implies (#[trigger] post.nodes@[ord2[j] as int]).unwrap().prev_pos_id
            == prev_in(ord2, j) && (post.nodes@[ord2[j] as int]).unwrap().next_pos_id
            == next_in(ord2, j) by {
            if j < k0 - 1 {
                assert(ord2[j] == ord[j]);
                assert(ord[j] != prev_id && ord[j] != next_id && ord[j] != pos_id);
                assert(post.nodes@[ord[j] as int] == pre.nodes@[ord[j] as int]);
                assert(prev_in(ord2, j) == prev_in(ord, j));
                assert(next_in(ord2, j) == next_in(ord, j));
            } else if j == k0 - 1 {
                // the predecessor: its successor link jumps over the node
                assert(ord2[j] == ord[j] && ord[j] == prev_id);
                assert(post.nodes@[prev_id as int].unwrap().prev_pos_id
                    == pre.nodes@[prev_id as int].unwrap().prev_pos_id);
                assert(pre.nodes@[prev_id as int].unwrap().prev_pos_id == prev_in(ord, j));
                assert(prev_in(ord2, j) == prev_in(ord, j));
                assert(post.nodes@[prev_id as int].unwrap().next_pos_id == next_id);
                assert(next_in(ord2, j) == next_id);
            } else if j == k0 {
                // the successor: its predecessor link jumps backwards
                assert(ord2[j] == ord[j + 1] && ord[j + 1] == next_id);
                assert(post.nodes@[next_id as int].unwrap().prev_pos_id == prev_id);
                assert(prev_in(ord2, j) == prev_in(ord, k0));
                assert(post.nodes@[next_id as int].unwrap().next_pos_id
                    == pre.nodes@[next_id as int].unwrap().next_pos_id);
                assert(pre.nodes@[next_id as int].unwrap().next_pos_id == next_in(ord, k0 + 1));
                assert(next_in(ord2, j) == next_in(ord, k0 + 1));
            } else {
                assert(ord2[j] == ord[j + 1]);
                assert(ord[j + 1] != prev_id && ord[j + 1] != next_id && ord[j + 1] != pos_id);
                assert(post.nodes@[ord[j + 1] as int] == pre.nodes@[ord[j + 1] as int]);
                assert(prev_in(ord2, j) == prev_in(ord, j + 1));
                assert(next_in(ord2, j) == next_in(ord, j + 1));
            }
        }
    }

    /// Where the tail id lands after the splice: with the old tail removed it
    /// falls back to the predecessor, otherwise it does not move.
    #[verifier::rlimit(100)]
    proof fn lemma_remove_last_valid(pre: Self, post: Self, pos_id: u64)
        requires
            pre.wf(),
            pre.is_live(pos_id),
            Self::remove_pointwise(pre, post, pos_id),
        ensures
            post.last_valid_id == last_of(post.order@),
    {
        let ord = pre.order@;
        let ord2 = post.order@;
        let k0 = Self::lemma_remove_index(pre, post, pos_id);
        if pos_id == pre.last_valid_id {
            assert(ord[k0] == last_of(ord));
            if k0 < ord.len() - 1 {
                assert(ord[k0] < ord[ord.len() - 1]);
                assert(false);
            }
            assert(post.last_valid_id == prev_in(ord, k0));
            if k0 > 0 {
                assert(ord2[k0 - 1] == ord[k0 - 1]);
            }
        } else {
            assert(k0 != ord.len() - 1);
            assert(k0 < ord.len() - 1);
            assert(last_of(ord2) == ord2[ord2.len() - 1]);
            assert(ord2[ord2.len() - 1] == ord[ord.len() - 1]);
        }
    }

    /// Assembles well-formedness from its clause-shaped parts; stated over a
    /// single registry value so nothing else clutters the context.
    #[verifier::rlimit(100)]
    proof fn lemma_wf_from_parts(m: Self)
        requires
            1 <= m.nodes@.len() <= u32::MAX,
            m.nodes@[0] is Some,
            m.nodes@[0].unwrap().prev_pos_id == 0,
            m.nodes@[0].unwrap().liquid_staking_nonce == 0,
            m.nodes@[0].unwrap().next_pos_id == first_of(m.order@),
            forall|k: int| 0 <= k < m.order@.len() ==> 1 <= #[trigger] m.order@[k]
                < m.nodes@.len(),
            strictly_increasing(m.order@),
            forall|k: int|
                0 <= k < m.order@.len() ==> m.nodes@[#[trigger] m.order@[k] as int] is Some,
            forall|id: int|
                1 <= id < m.nodes@.len() && m.nodes@[id] is Some ==> m.order@.contains(id as u64),
            forall|k: int|
                0 <= k < m.order@.len() ==> (#[trigger] m.nodes@[m.order@[k] as int]).unwrap().prev_pos_id
                    == prev_in(m.order@, k) && (m.nodes@[m.order@[k] as int]).unwrap().next_pos_id
                    == next_in(m.order@, k),
            m.last_valid_id == last_of(m.order@),
            forall|k1: int, k2: int|
                0 <= k1 < k2 < m.order@.len() ==> (#[trigger] m.nodes@[m.order@[k1] as int]).unwrap().liquid_staking_nonce
                    != (#[trigger] m.nodes@[m.order@[k2] as int]).unwrap().liquid_staking_nonce,
        ensures
            m.wf(),
    {
    }

    /// After the splice, the sentinel still fronts the shortened list.
    #[verifier::rlimit(100)]
    proof fn lemma_remove_sentinel(pre: Self, post: Self, pos_id: u64)
        requires
            pre.wf(),
            pre.is_live(pos_id),
            Self::remove_pointwise(pre, post, pos_id),
        ensures
            post.nodes@[0] is Some,
            post.nodes@[0].unwrap().prev_pos_id == 0,
            post.nodes@[0].unwrap().liquid_staking_nonce == 0,
            post.nodes@[0].unwrap().next_pos_id == first_of(post.order@),
    {
        let ord = pre.order@;
        let ord2 = post.order@;
        let k0 = Self::lemma_remove_index(pre, post, pos_id);
        let pos = pre.spec_node(pos_id);
        let prev_id = pos.prev_pos_id;
        let next_id = pos.next_pos_id;
        if k0 == 0 {
            assert(prev_id == 0);
            assert(post.nodes@[0].unwrap().next_pos_id == next_id);
            assert(post.nodes@[0].unwrap().next_pos_id == first_of(ord2));
        } else {
            assert(prev_id == ord[k0 - 1]);
            assert(prev_id >= 1);
            if next_id != 0 {
                assert(next_id == ord[k0 + 1]);
                assert(next_id >= 1);
            }
            assert(post.nodes@[0] == pre.nodes@[0]);
            assert(first_of(ord2) == ord[0]);
        }
    }

    /// After the splice, exactly the removed id stops being live.
    #[verifier::rlimit(100)]
    proof fn lemma_remove_liveness(pre: Self, post: Self, pos_id: u64)
        requires
            pre.wf(),
            pre.is_live(pos_id),
            Self::remove_pointwise(pre, post, pos_id),
        ensures
            forall|id2: u64| post.is_live(id2) <==> (pre.is_live(id2) && id2 != pos_id),
    {
        let ord = pre.order@;
        let k0 = Self::lemma_remove_index(pre, post, pos_id);
        let pos = pre.spec_node(pos_id);
        let prev_id = pos.prev_pos_id;
        let next_id = pos.next_pos_id;
        assert forall|id2: u64| post.is_live(id2) <==> (pre.is_live(id2) && id2 != pos_id) by {
            if pre.is_live(id2) && id2 != pos_id {
                if id2 as int != prev_id as int && id2 as int != next_id as int {
                    assert(post.nodes@[id2 as int] == pre.nodes@[id2 as int]);
                }
            }
            if post.is_live(id2) {
                assert(id2 != pos_id);
                if id2 != prev_id && id2 != next_id {
                    assert(post.nodes@[id2 as int] == pre.nodes@[id2 as int]);
                } else {
                    if k0 == 0 && id2 == prev_id {
                        assert(id2 == 0);
                        assert(!post.is_live(id2));
                    }
                    if k0 > 0 && id2 == prev_id {
                        assert(pre.is_live(prev_id)) by {
                            assert(prev_id == prev_in(ord, k0));
                            assert(prev_id == ord[k0 - 1]);
                        }
                    }
                    if next_id != 0 && id2 == next_id {
                        assert(pre.is_live(next_id)) by {
                            assert(next_id == next_in(ord, k0));
                            assert(k0 < ord.len() - 1);
                            assert(next_id == ord[k0 + 1]);
                        }
                    }
                    if next_id == 0 && id2 == next_id {
                        assert(!post.is_live(id2));
                    }
                }
            }
        }
    }

    /// Unlinking a live node as `remove_rep` describes keeps the registry
    /// well-formed and realises `remove_effect`.
    #[verifier::rlimit(100)]
    proof fn lemma_remove(pre: Self, post: Self, pos_id: u64)
        requires
            pre.wf(),
            pre.is_live(pos_id),
            Self::remove_rep(pre, post, pos_id),
        ensures
            post.wf(),
            Self::remove_effect(pre, post, pos_id),
    {
        Self::lemma_remove_pointwise(pre, post, pos_id);
        Self::lemma_remove_order(pre, post, pos_id);
        Self::lemma_remove_order_contains(pre, post, pos_id);
        Self::lemma_remove_links(pre, post, pos_id);
        Self::lemma_remove_nonces(pre, post, pos_id);
        Self::lemma_remove_last_valid(pre, post, pos_id);
        Self::lemma_remove_sentinel(pre, post, pos_id);
        Self::lemma_remove_liveness(pre, post, pos_id);
        Self::lemma_wf_from_parts(post);
        let k0 = Self::lemma_remove_index(pre, post, pos_id);
        assert(post.order@ == pre.order@.remove(pre.order@.index_of(pos_id)));
        assert forall|id2: u64| #[trigger] post.is_live(id2) implies post.spec_nonce(id2)
            == pre.spec_nonce(id2) by {
            assert(pre.is_live(id2) && id2 != pos_id);
        }
    }

    /// Whether a live position other than `pos_id` already holds `nonce`.
    pub open spec fn nonce_taken_by_other(&self, pos_id: u64, nonce: u64) -> bool {
        exists|id2: u64|
            #[trigger] self.is_live(id2) && id2 != pos_id && self.spec_nonce(id2) == nonce
    }

    /// Live positions hold pairwise distinct collateral references, so a
    /// reference pins its holder down.
    pub proof fn lemma_nonce_unique(&self, a: u64, b: u64)
        requires
            self.wf(),
            self.is_live(a),
            self.is_live(b),
            self.spec_nonce(a) == self.spec_nonce(b),
        ensures
            a == b,
    {
        let ka = self.lemma_live_index(a);
        let kb = self.lemma_live_index(b);
        if ka != kb {
            assert(self.nodes@[self.order@[ka] as int].unwrap().liquid_staking_nonce
                != self.nodes@[self.order@[kb] as int].unwrap().liquid_staking_nonce);
        }
    }

    /// After a reference rotation, every node's links still match its
    /// neighbours: only one nonce changed, never a link.
    #[verifier::rlimit(100)]
    proof fn lemma_update_links(pre: Self, post: Self, pos_id: u64, new_nonce: u64)
        requires
            pre.wf(),
            pre.is_live(pos_id),
            post.nodes@ == pre.nodes@.update(
                pos_id as int,
                Some(
                    StakingPosition {
                        prev_pos_id: pre.spec_node(pos_id).prev_pos_id,
                        next_pos_id: pre.spec_node(pos_id).next_pos_id,
                        liquid_staking_nonce: new_nonce,
                    },
                ),
            ),
        ensures
            forall|k: int|
                0 <= k < pre.order@.len() ==> post.nodes@[#[trigger] pre.order@[k] as int]
                    is Some && post.nodes@[pre.order@[k] as int].unwrap().prev_pos_id == prev_in(
                    pre.order@,
                    k,
                ) && post.nodes@[pre.order@[k] as int].unwrap().next_pos_id == next_in(
                    pre.order@,
                    k,
                ),
    {
        let ord = pre.order@;
        let k0 = pre.lemma_live_index(pos_id);
        assert forall|k: int| 0 <= k < ord.len() implies post.nodes@[#[trigger] ord[k] as int]
            is Some && post.nodes@[ord[k] as int].unwrap().prev_pos_id == prev_in(ord, k)
            && post.nodes@[ord[k] as int].unwrap().next_pos_id == next_in(ord, k) by {
            if ord[k] != pos_id {
                assert(post.nodes@[ord[k] as int] == pre.nodes@[ord[k] as int]);
            }
        }
    }

    /// Replacing one node's collateral reference as `update_rep` describes
    /// keeps the registry well-formed: the chain is untouched and the new
    /// reference collides with no other live position.
    #[verifier::rlimit(100)]
    proof fn lemma_update(pre: Self, post: Self, pos_id: u64, new_nonce: u64)
        requires
            pre.wf(),
            pre.is_live(pos_id),
            !pre.nonce_taken_by_other(pos_id, new_nonce),
            post.last_valid_id == pre.last_valid_id,
            post.order@ == pre.order@,
            post.nodes@ == pre.nodes@.update(
                pos_id as int,
                Some(
                    StakingPosition {
                        prev_pos_id: pre.spec_node(pos_id).prev_pos_id,
                        next_pos_id: pre.spec_node(pos_id).next_pos_id,
                        liquid_staking_nonce: new_nonce,
                    },
                ),
            ),
        ensures
            post.wf(),
    {
        Self::lemma_update_links(pre, post, pos_id, new_nonce);
        Self::lemma_update_nonces(pre, post, pos_id, new_nonce);
        assert(post.nodes@[0] is Some && post.nodes@[0].unwrap() == pre.nodes@[0].unwrap());
        Self::lemma_wf_from_parts(post);
    }

    /// After a reference rotation, the live references stay pairwise
    /// distinct: the new one collides with nobody, the rest are unchanged.
    #[verifier::rlimit(100)]
    proof fn lemma_update_nonces(pre: Self, post: Self, pos_id: u64, new_nonce: u64)
        requires
            pre.wf(),
            pre.is_live(pos_id),
            !pre.nonce_taken_by_other(pos_id, new_nonce),
            post.order@ == pre.order@,
            post.nodes@ == pre.nodes@.update(
                pos_id as int,
                Some(
                    StakingPosition {
                        prev_pos_id: pre.spec_node(pos_id).prev_pos_id,
                        next_pos_id: pre.spec_node(pos_id).next_pos_id,
                        liquid_staking_nonce: new_nonce,
                    },
                ),
            ),
        ensures
            forall|k1: int, k2: int|
                0 <= k1 < k2 < post.order@.len() ==> (#[trigger] post.nodes@[post.order@[k1] as int]).unwrap().liquid_staking_nonce
                    != (#[trigger] post.nodes@[post.order@[k2] as int]).unwrap().liquid_staking_nonce,
    {
        let ord = pre.order@;
        let k0 = pre.lemma_live_index(pos_id);
        assert forall|k1: int, k2: int| 0 <= k1 < k2 < ord.len() implies (
        #[trigger] post.nodes@[ord[k1] as int]).unwrap().liquid_staking_nonce != (
        #[trigger] post.nodes@[ord[k2] as int]).unwrap().liquid_staking_nonce by {
            if ord[k1] == pos_id {
                assert(k1 == k0);
                assert(pre.is_live(ord[k2]) && ord[k2] != pos_id);
                assert(pre.spec_nonce(ord[k2]) != new_nonce);
            } else if ord[k2] == pos_id {
                assert(k2 == k0);
                assert(pre.is_live(ord[k1]) && ord[k1] != pos_id);
                assert(pre.spec_nonce(ord[k1]) != new_nonce);
            } else {
                assert(post.nodes@[ord[k1] as int] == pre.nodes@[ord[k1] as int]);
                assert(post.nodes@[ord[k2] as int] == pre.nodes@[ord[k2] as int]);
            }
        }
    }

    /// Rotates the collateral reference of a live position, as the remote
    /// rewards service does when it re-issues collateral under a new nonce.
    /// The links and every other position stay exactly as they were. A
    /// reference already held by a different live position is rejected, so
    /// references keep identifying positions uniquely.
    #[verifier::rlimit(100)]
    pub fn update_staking_position(&mut self, pos_id: u64, new_liquid_staking_nonce: u64) -> (r:
        Result<(), SaError>)
        requires
            old(self).wf(),
        ensures
            final(self).wf(),
            !old(self).is_live(pos_id) ==> r == Err::<(), SaError>(
                SaError::InvalidStakingPositionId,
            ) && *final(self) == *old(self),
            old(self).is_live(pos_id) && old(self).nonce_taken_by_other(
                pos_id,
                new_liquid_staking_nonce,
            ) ==> r == Err::<(), SaError>(SaError::DuplicateCollateralReference) && *final(self)
                == *old(self),
            old(self).is_live(pos_id) && !old(self).nonce_taken_by_other(
                pos_id,
                new_liquid_staking_nonce,
            ) ==> {
                &&& r == Ok::<(), SaError>(())
                &&& final(self).order() == old(self).order()
                &&& final(self).num_slots() == old(self).num_slots()
                &&& final(self).spec_last_valid() == old(self).spec_last_valid()
                &&& forall|id2: u64| final(self).is_live(id2) <==> old(self).is_live(id2)
                &&& final(self).spec_node(pos_id) == (StakingPosition {
                    prev_pos_id: old(self).spec_node(pos_id).prev_pos_id,
                    next_pos_id: old(self).spec_node(pos_id).next_pos_id,
                    liquid_staking_nonce: new_liquid_staking_nonce,
                })
                &&& forall|id2: u64|
                    old(self).is_live(id2) && id2 != pos_id ==> final(self).spec_node(id2) == old(
                        self,
                    ).spec_node(id2)
            },
    {
        if pos_id == 0 {
            return Err(SaError::InvalidStakingPositionId);
        }
        if pos_id >= self.nodes.len() as u64 {
            return Err(SaError::InvalidStakingPositionId);
        }
        let node = match self.nodes[pos_id as usize] {
            Some(p) => p,
            None => {
                return Err(SaError::InvalidStakingPositionId);
            },
        };
        match self.find_pos_id_by_nonce(new_liquid_staking_nonce) {
            Some(holder) => {
                if holder != pos_id {
                    return Err(SaError::DuplicateCollateralReference);
                }
                proof {
                    if self.nonce_taken_by_other(pos_id, new_liquid_staking_nonce) {
                        let w = choose|id2: u64|
                            #[trigger] self.is_live(id2) && id2 != pos_id && self.spec_nonce(id2)
                                == new_liquid_staking_nonce;
                        self.lemma_nonce_unique(w, holder);
                    }
                }
            },
            None => {
                proof {
                    if self.nonce_taken_by_other(pos_id, new_liquid_staking_nonce) {
                        let w = choose|id2: u64|
                            #[trigger] self.is_live(id2) && id2 != pos_id && self.spec_nonce(id2)
                                == new_liquid_staking_nonce;
                        assert(self.has_live_nonce(new_liquid_staking_nonce));
                    }
                }
            },
        }
        let ghost pre: StakingPositionsMapper = *self;
        let updated = StakingPosition {
            prev_pos_id: node.prev_pos_id,
            next_pos_id: node.next_pos_id,
            liquid_staking_nonce: new_liquid_staking_nonce,
        };
        self.nodes.set(pos_id as usize, Some(updated));
        proof {
            Self::lemma_update(pre, *self, pos_id, new_liquid_staking_nonce);
        }
        Ok(())
    }

    /// In a strictly increasing run of ids starting at 1 or above, the id at
    /// place `k` is at least `k + 1`.
    proof fn lemma_increasing_lower(ord: Seq<u64>, k: int)
        requires
            strictly_increasing(ord),
            0 <= k < ord.len(),
            ord.len() == 0 || ord[0] >= 1,
        ensures
            ord[k] >= 1 + k,
        decreases k,
    {
        if k > 0 {
            Self::lemma_increasing_lower(ord, k - 1);
            assert(ord[k - 1] < ord[k]);
        }
    }

    /// The list can never hold more positions than the arena has slots.
    pub proof fn lemma_order_len_bound(&self)
        requires
            self.wf(),
        ensures
            self.order().len() < self.num_slots(),
            self.num_slots() <= u32::MAX,
    {
        let ord = self.order@;
        if ord.len() > 0 {
            Self::lemma_increasing_lower(ord, ord.len() - 1);
            assert(ord[ord.len() - 1] < self.nodes@.len());
        }
    }

    /// A live id indexes a real arena slot, and the arena is bounded.
    pub proof fn lemma_live_bounds(&self, id: u64)
        requires
            self.wf(),
            self.is_live(id),
        ensures
            1 <= id as int,
            (id as int) < self.num_slots(),
            self.num_slots() <= u32::MAX,
    {
    }

    /// The basic facts about one place of the list order, for callers that
    /// walk the chain: the node there is live and its links name exactly its
    /// neighbours.
    pub proof fn lemma_node_from_order(&self, k: int)
        requires
            self.wf(),
            0 <= k < self.order().len(),
        ensures
            self.is_live(self.order()[k]),
            self.spec_node(self.order()[k]).prev_pos_id == prev_in(self.order(), k),
            self.spec_node(self.order()[k]).next_pos_id == next_in(self.order(), k),
            self.order()[k] != 0,
    {
    }

    /// Ids are never reused: a freshly issued id names no position that
    /// exists now, and is strictly greater than every id in use — so, since
    /// removal never shrinks the arena, greater than every id ever issued.
    pub proof fn lemma_fresh_id_is_new(pre: Self, post: Self, nonce: u64, id: u64)
        requires
            pre.wf(),
            !pre.has_live_nonce(nonce),
            Self::add_effect(pre, post, nonce, id),
        ensures
            !pre.is_live(id),
            forall|id2: u64| #[trigger] pre.is_live(id2) ==> id2 < id,
    {
        assert forall|id2: u64| #[trigger] pre.is_live(id2) implies id2 < id by {
            let k = pre.lemma_live_index(id2);
        }
    }

    /// The linked list is consistent: the order is duplicate-free (so the
    /// chain is acyclic), and walking it visits exactly the live positions.
    #[verifier::rlimit(100)]
    pub proof fn lemma_registry_consistency(&self)
        requires
            self.wf(),
        ensures
            forall|k1: int, k2: int|
                0 <= k1 < k2 < self.order().len() ==> #[trigger] self.order()[k1]
                    != #[trigger] self.order()[k2],
            forall|id: u64| self.is_live(id) <==> self.order().contains(id),
    {
        assert forall|id: u64| self.is_live(id) <==> self.order().contains(id) by {
            if self.order().contains(id) {
                let k = choose|k: int|
                    0 <= k < self.order().len() && self.order()[k] == id;
                assert(self.nodes@[self.order@[k] as int] is Some);
                assert(1 <= self.order@[k] < self.nodes@.len());
            }
            if self.is_live(id) {
                assert(self.order@.contains(id));
            }
        }
    }

    /// Walks the chain from the head sentinel and returns the live ids in
    /// list order.
    #[verifier::rlimit(100)]
    pub fn live_position_ids(&self) -> (r: Vec<u64>)
        requires
            self.wf(),
        ensures
            r@ == self.order(),
    {
        let mut r: Vec<u64> = Vec::new();
        let mut current: u64 = self.get_first_staking_position_id();
        proof {
            if self.order@.len() > 0 {
                self.lemma_node_from_order(0);
            }
        }
        while current != 0
            invariant
                self.wf(),
                r@.len() <= self.order().len(),
                r@ == self.order().take(r@.len() as int),
                current == if r@.len() == self.order().len() {
                    0u64
                } else {
                    self.order()[r@.len() as int]
                },
            decreases self.order().len() - r@.len(),
        {
            let ghost k = r@.len() as int;
            proof {
                self.lemma_node_from_order(k);
            }
            let node = match self.get_staking_position(current) {
                Ok(n) => n,
                Err(_) => {
                    proof {
                        assert(false);
                    }
                    StakingPosition { prev_pos_id: 0, next_pos_id: 0, liquid_staking_nonce: 0 }
                },
            };
            r.push(current);
            proof {
                assert(r@ =~= self.order().take(r@.len() as int));
                if k + 1 < self.order@.len() {
                    self.lemma_node_from_order(k + 1);
                }
            }
            current = node.next_pos_id;
        }
        proof {
            assert(r@.len() == self.order@.len());
            assert(r@ =~= self.order());
        }
        r
    }

    /// Adding the same collateral reference twice, with no removal in
    /// between, returns the same id both times, and the second call does not
    /// change the registry at all.
    #[verifier::rlimit(100)]
    pub proof fn lemma_add_idempotent(
        m0: Self,
        m1: Self,
        m2: Self,
        nonce: u64,
        id1: u64,
        id2: u64,
    )
        requires
            m0.wf(),
            m1.wf(),
            Self::add_effect(m0, m1, nonce, id1),
            Self::add_effect(m1, m2, nonce, id2),
        ensures
            id2 == id1,
            m2 == m1,
    {
        assert(m1.is_live(id1) && m1.spec_nonce(id1) == nonce) by {
            if m0.has_live_nonce(nonce) {
                assert(m1 == m0);
            }
        }
        assert(m1.has_live_nonce(nonce));
        assert(m2 == m1 && m1.is_live(id2) && m1.spec_nonce(id2) == nonce);
        m1.lemma_nonce_unique(id1, id2);
    }

    /// Unlinks and clears a position in O(1): the predecessor's `next_pos_id`
    /// takes the removed node's successor, an existing successor points back
    /// at the predecessor, and a removed tail hands `last_valid_id` to its
    /// predecessor. The sentinel id and ids that are not live are rejected.
    #[verifier::rlimit(100)]
    pub fn remove_staking_position(&mut self, pos_id: u64) -> (r: Result<(), SaError>)
        requires
            old(self).wf(),
        ensures
            final(self).wf(),
            r is Err <==> !old(self).is_live(pos_id),
            r is Err ==> *final(self) == *old(self) && r == Err::<(), SaError>(
                SaError::InvalidStakingPositionId,
            ),
            r is Ok ==> Self::remove_effect(*old(self), *final(self), pos_id),
    {
        if pos_id == 0 {
            return Err(SaError::InvalidStakingPositionId);
        }
        if pos_id >= self.nodes.len() as u64 {
            return Err(SaError::InvalidStakingPositionId);
        }
        let pos = match self.nodes[pos_id as usize] {
            Some(p) => p,
            None => {
                return Err(SaError::InvalidStakingPositionId);
            },
        };
        let ghost pre: StakingPositionsMapper = *self;
        proof {
            let k0 = self.lemma_live_index(pos_id);
            if k0 > 0 {
                assert(pos.prev_pos_id == self.order@[k0 - 1]);
                assert(self.is_live(pos.prev_pos_id));
            }
            if k0 < self.order@.len() - 1 {
                assert(pos.next_pos_id == self.order@[k0 + 1]);
                assert(self.is_live(pos.next_pos_id));
            }
        }

        // splice the predecessor over the removed node
        let prev_idx: usize = pos.prev_pos_id as usize;
        match self.nodes[prev_idx] {
            Some(prev_node) => {
                let updated = StakingPosition {
                    prev_pos_id: prev_node.prev_pos_id,
                    next_pos_id: pos.next_pos_id,
                    liquid_staking_nonce: prev_node.liquid_staking_nonce,
                };
                self.nodes.set(prev_idx, Some(updated));
            },
            None => {
                proof {
                    assert(false);
                }
            },
        }

        // an existing successor points back at the predecessor
        if pos.next_pos_id != 0 {
            let next_idx: usize = pos.next_pos_id as usize;
            match self.nodes[next_idx] {
                Some(next_node) => {
                    let updated = StakingPosition {
                        prev_pos_id: pos.prev_pos_id,
                        next_pos_id: next_node.next_pos_id,
                        liquid_staking_nonce: next_node.liquid_staking_nonce,
                    };
                    self.nodes.set(next_idx, Some(updated));
                },
                None => {
                    proof {
                        assert(false);
                    }
                },
            }
        }

        if pos_id == self.last_valid_id {
            self.last_valid_id = pos.prev_pos_id;
        }
        self.nodes.set(pos_id as usize, None);
        self.order = Ghost(self.order@.remove(self.order@.index_of(pos_id)));

        proof {
            assert(Self::remove_rep(pre, *self, pos_id));
            Self::lemma_remove(pre, *self, pos_id);
        }
        Ok(())
    }

    /// The id of the first position in list order, 0 when the list is empty.
    pub fn get_first_staking_position_id(&self) -> (r: u64)
        requires
            self.wf(),
        ensures
            r == first_of(self.order()),
    {
        match self.nodes[0] {
            Some(head) => head.next_pos_id,
            None => 0,
        }
    }

    /// The id of the tail position, 0 when the list is empty.
    pub fn get_last_valid_staking_pos_id(&self) -> (r: u64)
        requires
            self.wf(),
        ensures
            r == last_of(self.order()),
            r == self.spec_last_valid(),
    {
        self.last_valid_id
    }
}

} // verus!
