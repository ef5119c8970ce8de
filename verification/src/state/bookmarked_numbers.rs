//! The registry of bookmarked numbers.
//!
//! Entries are keyed by a generated opaque id and indexed four ways: by
//! global insertion order (the primary map itself), per owner, per owner by
//! number (the uniqueness check), and — for public entries — by a global
//! public-subset index plus a per-number fan-out of public ids. The indexes
//! are derived data: an entry is flagged public exactly when the public
//! indexes hold its id, and all index mutations happen inside the one method
//! that also mutates the flag.

use vstd::prelude::*;

use crate::errors::ContractError;
use crate::state::ids::{external_id, id_below, lemma_external_id_round_trip, spec_decode_id, spec_external_id};
use crate::state::ordered::{
    distinct, family_add, family_remove, index_of, occurs, swap_removed, NumberMap, NumberSet,
    OrderedMap, StringSet,
};
use crate::state::utils::{
    keymap_reverse_paging, keyset_reverse_paging, lemma_page_members, lemma_reverse_members,
    page_in_bounds, page_of, read_order,
};
use crate::time::Timestamp;

verus! {

/// One bookmarked number.
#[derive(Debug, PartialEq, Eq)]
pub struct BookmarkedNumberEntry {
    pub owner_addr: String,
    /// Well, the bookmarked number.
    pub number: i32,
    /// Whatever the owner wants to note, e.g. why bookmark it.
    pub memo_text: String,
    pub marked_as_public_at: Option<Timestamp>,
    pub created_at: Timestamp,
    pub updated_at: Timestamp,
}

/// The abstract value of an entry, with the strings as character sequences.
pub struct BookmarkedNumberEntryModel {
    pub owner_addr: Seq<char>,
    pub number: i32,
    pub memo_text: Seq<char>,
    pub marked_as_public_at: Option<Timestamp>,
    pub created_at: Timestamp,
    pub updated_at: Timestamp,
}

impl View for BookmarkedNumberEntry {
    type V = BookmarkedNumberEntryModel;

    open spec fn view(&self) -> BookmarkedNumberEntryModel {
        BookmarkedNumberEntryModel {
            owner_addr: self.owner_addr@,
            number: self.number,
            memo_text: self.memo_text@,
            marked_as_public_at: self.marked_as_public_at,
            created_at: self.created_at,
            updated_at: self.updated_at,
        }
    }
}

impl Clone for BookmarkedNumberEntry {
    /// A copy equal to the original.
    fn clone(&self) -> (res: Self)
        ensures
            res == *self,
    {
        BookmarkedNumberEntry {
            owner_addr: self.owner_addr.clone(),
            number: self.number,
            memo_text: self.memo_text.clone(),
            marked_as_public_at: self.marked_as_public_at,
            created_at: self.created_at,
            updated_at: self.updated_at,
        }
    }
}

/// What an update asks for: the entry, the new memo, and the desired
/// visibility.
pub struct UpdateOneEntryPayload {
    pub entry_id: String,
    pub memo_text: String,
    pub mark_entry_as_public: bool,
}

/// The registry with its indexes.
pub struct BookmarkedNumbersManager {
    /// The primary map, in global insertion order.
    pub entries: OrderedMap<BookmarkedNumberEntry>,
    /// Per owner, the ids of that owner's entries in insertion order. This
    /// index, not the stored owner field, is the authorization source of
    /// truth.
    pub owner_entry_index: OrderedMap<StringSet>,
    /// Per owner, the numbers already bookmarked: the uniqueness check.
    pub owner_number_index: OrderedMap<NumberSet>,
    /// The ids of the public entries, in insertion order.
    pub global_public_entry_index: StringSet,
    /// Per number, the ids of the public entries bookmarking it.
    pub number_public_index: NumberMap<StringSet>,
    /// The sequence: the next id to hand out.
    pub next_id: u64,
}

impl BookmarkedNumbersManager {
    /// A set of ids is well-formed against the primary map: distinct, and
    /// every id is a key.
    pub open spec fn ids_ok(&self, ids: Seq<Seq<char>>) -> bool {
        &&& distinct(ids)
        &&& forall|k: int| 0 <= k < ids.len() ==> self.entries.spec_contains(#[trigger] ids[k])
    }

    /// The numbers of all entries, in insertion order.
    pub open spec fn entry_numbers(&self) -> Seq<i32> {
        self.entries.model().map_values(|p: (Seq<char>, BookmarkedNumberEntryModel)| p.1.number)
    }

    /// The registry's invariant. Every key is a generated id below the
    /// sequence; the per-owner indexes hold distinct keys; an entry is
    /// flagged public exactly when the global public index holds its id; and
    /// the per-number fan-out holds exactly the public ids of each number.
    pub open spec fn wf(&self) -> bool {
        &&& self.entries.wf()
        &&& self.entries.model().len() < u32::MAX
        &&& 1 <= self.next_id
        &&& forall|i: int|
            0 <= i < self.entries.model().len() ==> id_below(
                #[trigger] self.entries.key_model()[i],
                self.next_id,
            )
        &&& self.owner_entry_index.wf()
        &&& self.owner_entry_index.model().len() <= self.entries.model().len()
        &&& forall|j: int|
            0 <= j < self.owner_entry_index.model().len() ==> self.ids_ok(
                #[trigger] self.owner_entry_index.model()[j].1,
            )
        &&& self.owner_number_index.wf()
        &&& self.owner_number_index.model().len() <= self.entries.model().len()
        &&& forall|j: int|
            0 <= j < self.owner_number_index.model().len() ==> distinct(
                #[trigger] self.owner_number_index.model()[j].1,
            ) && self.owner_number_index.model()[j].1.len() <= self.entries.model().len()
        &&& self.global_public_entry_index.wf()
        &&& self.ids_ok(self.global_public_entry_index@)
        &&& forall|i: int|
            0 <= i < self.entries.model().len() ==> ((#[trigger] self.entries.model()[i].1.marked_as_public_at)
                is Some <==> self.global_public_entry_index.spec_contains(
                self.entries.key_model()[i],
            ))
        &&& self.number_public_index.wf()
        &&& forall|j: int|
            0 <= j < self.number_public_index.model().len() ==> occurs(
                self.entry_numbers(),
                #[trigger] self.number_public_index.key_model()[j],
            )
        &&& forall|j: int|
            0 <= j < self.number_public_index.model().len() ==> distinct(
                #[trigger] self.number_public_index.model()[j].1,
            )
        &&& forall|j: int, k: int|
            #![trigger self.number_public_index.model()[j].1[k]]
            0 <= j < self.number_public_index.model().len() && 0 <= k
                < self.number_public_index.model()[j].1.len()
                ==> self.global_public_entry_index.spec_contains(
                self.number_public_index.model()[j].1[k],
            ) && self.entries.spec_get(self.number_public_index.model()[j].1[k]).number
                == self.number_public_index.model()[j].0
        &&& forall|k: int|
            #![trigger self.global_public_entry_index@[k]]
            0 <= k < self.global_public_entry_index@.len() ==> self.number_public_index.spec_contains(
                self.entries.spec_get(self.global_public_entry_index@[k]).number,
            ) && occurs(
                self.number_public_index.spec_get(
                    self.entries.spec_get(self.global_public_entry_index@[k]).number,
                ),
                self.global_public_entry_index@[k],
            )
    }

    /// Whether `owner` already bookmarked `number`.
    pub open spec fn has_number(&self, owner: Seq<char>, number: i32) -> bool {
        self.owner_number_index.spec_contains(owner) && occurs(
            self.owner_number_index.spec_get(owner),
            number,
        )
    }

    /// The ids of one owner's entries: the owner's index set, or empty for an
    /// owner never seen.
    pub open spec fn owned_ids(&self, owner: Seq<char>) -> Seq<Seq<char>> {
        if self.owner_entry_index.spec_contains(owner) {
            self.owner_entry_index.spec_get(owner)
        } else {
            Seq::<Seq<char>>::empty()
        }
    }

    /// The public ids bookmarking `number`, or empty for a number never made
    /// public.
    pub open spec fn public_ids_by_number(&self, number: i32) -> Seq<Seq<char>> {
        if self.number_public_index.spec_contains(number) {
            self.number_public_index.spec_get(number)
        } else {
            Seq::<Seq<char>>::empty()
        }
    }

    /// Whether `entry_id` may leave the global public index without changing
    /// the order of the rest: it is absent already, or it is the last entry
    /// marked public.
    pub open spec fn removable(&self, entry_id: Seq<char>) -> bool {
        ||| !self.global_public_entry_index.spec_contains(entry_id)
        ||| (self.global_public_entry_index@.len() > 0 && self.global_public_entry_index@.last()
            == entry_id)
    }

    /// An empty registry whose sequence starts at one.
    pub fn new() -> (r: BookmarkedNumbersManager)
        ensures
            r.wf(),
            r.entries.model() == Seq::<(Seq<char>, BookmarkedNumberEntryModel)>::empty(),
            r.owner_entry_index.model() == Seq::<(Seq<char>, Seq<Seq<char>>)>::empty(),
            r.owner_number_index.model() == Seq::<(Seq<char>, Seq<i32>)>::empty(),
            r.global_public_entry_index@ == Seq::<Seq<char>>::empty(),
            r.number_public_index.model() == Seq::<(i32, Seq<Seq<char>>)>::empty(),
            r.next_id == 1,
    {
        BookmarkedNumbersManager {
            entries: OrderedMap::new(),
            owner_entry_index: OrderedMap::new(),
            owner_number_index: OrderedMap::new(),
            global_public_entry_index: StringSet::new(),
            number_public_index: NumberMap::new(),
            next_id: 1,
        }
    }

    /// Hands out the next sequence number and advances the sequence.
    fn get_next_id_u64_and_advance_sequence(&mut self) -> (r: u64)
        requires
            old(self).next_id < u64::MAX,
        ensures
            r == old(self).next_id,
            final(self).next_id == old(self).next_id + 1,
            final(self).entries == old(self).entries,
            final(self).owner_entry_index == old(self).owner_entry_index,
            final(self).owner_number_index == old(self).owner_number_index,
            final(self).global_public_entry_index == old(self).global_public_entry_index,
            final(self).number_public_index == old(self).number_public_index,
    {
        let next_id = self.next_id;
        self.next_id = next_id + 1;
        next_id
    }

    /// Puts `entry_id` into the global public index and into the per-number
    /// fan-out under `entry_number`; already-present ids are left alone.
    fn add_entry_id_to_public_entry_indexes(&mut self, entry_number: i32, entry_id: &String)
        requires
            old(self).global_public_entry_index.wf(),
            old(self).global_public_entry_index@.len() < u32::MAX,
            old(self).number_public_index.wf(),
            old(self).number_public_index.model().len() < u32::MAX,
            forall|j: int|
                0 <= j < old(self).number_public_index.model().len() ==> distinct(
                    #[trigger] old(self).number_public_index.model()[j].1,
                ) && old(self).number_public_index.model()[j].1.len() < u32::MAX,
        ensures
            final(self).global_public_entry_index.wf(),
            final(self).number_public_index.wf(),
            old(self).global_public_entry_index.spec_contains(entry_id@) ==> final(self).global_public_entry_index@ == old(self).global_public_entry_index@,
            !old(self).global_public_entry_index.spec_contains(entry_id@) ==> final(self).global_public_entry_index@ == old(self).global_public_entry_index@.push(entry_id@),
            final(self).number_public_index.model() == family_add(
                old(self).number_public_index.model(),
                entry_number,
                entry_id@,
            ),
            final(self).entries == old(self).entries,
            final(self).owner_entry_index == old(self).owner_entry_index,
            final(self).owner_number_index == old(self).owner_number_index,
            final(self).next_id == old(self).next_id,
    {
        self.global_public_entry_index.insert(entry_id);
        let mut number_set = match self.number_public_index.get(entry_number) {
            Some(s) => s.clone(),
            None => StringSet::new(),
        };
        proof {
            if old(self).number_public_index.spec_contains(entry_number) {
                let j = index_of(old(self).number_public_index.key_model(), entry_number);
                old(self).number_public_index.lemma_get_at(j);
                assert(distinct(old(self).number_public_index.model()[j].1));
                assert(number_set.wf());
            }
        }
        number_set.insert(entry_id);
        self.number_public_index.insert(entry_number, number_set);
        proof {
            let fam = family_add(old(self).number_public_index.model(), entry_number, entry_id@);
            let prev_fam_keys = old(self).number_public_index.model().map_values(
                |p: (i32, Seq<Seq<char>>)| p.0,
            );
            old(self).number_public_index.lemma_models_agree();
            assert(prev_fam_keys =~= old(self).number_public_index.key_model());
            if old(self).number_public_index.spec_contains(entry_number) {
                let j = index_of(old(self).number_public_index.key_model(), entry_number);
                assert(index_of(prev_fam_keys, entry_number) == j);
                assert(self.number_public_index.model() =~~= fam);
            } else {
                assert(self.number_public_index.model() =~~= fam);
            }
        }
    }

    /// Creates one entry under a fresh generated id, or fails when the owner
    /// already bookmarked this number — in which case nothing changes.
    pub fn add_one_entry(&mut self, now: Timestamp, entry: BookmarkedNumberEntry) -> (r: Result<
        (),
        ContractError,
    >)
        requires
            old(self).wf(),
            old(self).next_id < u64::MAX,
            old(self).entries.model().len() + 1 < u32::MAX,
        ensures
            final(self).wf(),
            r is Err <==> old(self).has_number(entry.owner_addr@, entry.number),
            r is Err ==> r == Err::<(), ContractError>(ContractError::DuplicateNumber) && *final(self) == *old(self),
            r is Ok ==> {
                let id = spec_external_id(old(self).next_id, now.nanos);
                &&& final(self).entries.model() == old(self).entries.model().push((id, entry@))
                &&& final(self).owner_entry_index.model() == family_add(
                    old(self).owner_entry_index.model(),
                    entry.owner_addr@,
                    id,
                )
                &&& final(self).owner_number_index.model() == family_add(
                    old(self).owner_number_index.model(),
                    entry.owner_addr@,
                    entry.number,
                )
                &&& final(self).global_public_entry_index@ == if entry.marked_as_public_at
                    is Some {
                    old(self).global_public_entry_index@.push(id)
                } else {
                    old(self).global_public_entry_index@
                }
                &&& final(self).number_public_index.model() == if entry.marked_as_public_at
                    is Some {
                    family_add(old(self).number_public_index.model(), entry.number, id)
                } else {
                    old(self).number_public_index.model()
                }
                &&& final(self).next_id == old(self).next_id + 1
            },
    {
        let owner_addr = entry.owner_addr.clone();
        let number_bookmarked = match self.owner_number_index.get(&owner_addr) {
            Some(s) => s.contains(entry.number),
            None => false,
        };
        proof {
            if old(self).owner_number_index.spec_contains(owner_addr@) {
                let j = index_of(old(self).owner_number_index.key_model(), owner_addr@);
                old(self).owner_number_index.lemma_get_at(j);
            }
        }
        if number_bookmarked {
            return Err(ContractError::DuplicateNumber);
        }
        let next_id_u64 = self.get_next_id_u64_and_advance_sequence();
        let next_sqid = external_id(next_id_u64, now);
        let ghost prev = *old(self);
        let ghost e = entry@;
        proof {
            lemma_external_id_round_trip(next_id_u64, now.nanos);
            if prev.entries.spec_contains(next_sqid@) {
                let q = index_of(prev.entries.key_model(), next_sqid@);
                assert(id_below(prev.entries.key_model()[q], prev.next_id));
                assert(false);
            }
            if prev.global_public_entry_index.spec_contains(next_sqid@) {
                let q = index_of(prev.global_public_entry_index@, next_sqid@);
                assert(prev.entries.spec_contains(prev.global_public_entry_index@[q]));
                assert(false);
            }
        }
        let make_public = entry.marked_as_public_at.is_some();
        let number = entry.number;
        self.entries.insert(&next_sqid, entry);
        let mut owner_set = match self.owner_entry_index.get(&owner_addr) {
            Some(s) => s.clone(),
            None => StringSet::new(),
        };
        proof {
            if prev.owner_entry_index.spec_contains(owner_addr@) {
                let j = index_of(prev.owner_entry_index.key_model(), owner_addr@);
                prev.owner_entry_index.lemma_get_at(j);
                assert(prev.ids_ok(prev.owner_entry_index.model()[j].1));
                assert(owner_set@ == prev.owner_entry_index.model()[j].1);
                assert forall|k: int| 0 <= k < owner_set@.len() implies occurs(
                    prev.entries.key_model(),
                    #[trigger] owner_set@[k],
                ) by {
                    assert(prev.entries.spec_contains(owner_set@[k]));
                }
                crate::state::ordered::lemma_distinct_contained_len(
                    owner_set@,
                    prev.entries.key_model(),
                );
                prev.entries.lemma_models_agree();
                assert(owner_set.wf());
                if owner_set.spec_contains(next_sqid@) {
                    let q = index_of(owner_set@, next_sqid@);
                    assert(prev.entries.spec_contains(owner_set@[q]));
                    assert(false);
                }
            }
        }
        owner_set.insert(&next_sqid);
        self.owner_entry_index.insert(&owner_addr, owner_set);
        proof {
            let fam = family_add(prev.owner_entry_index.model(), owner_addr@, next_sqid@);
            let prev_fam_keys = prev.owner_entry_index.model().map_values(
                |p: (Seq<char>, Seq<Seq<char>>)| p.0,
            );
            prev.owner_entry_index.lemma_models_agree();
            assert(prev_fam_keys =~= prev.owner_entry_index.key_model());
            if prev.owner_entry_index.spec_contains(owner_addr@) {
                let j = index_of(prev.owner_entry_index.key_model(), owner_addr@);
                assert(index_of(prev_fam_keys, owner_addr@) == j);
                assert(self.owner_entry_index.model() =~~= fam);
            } else {
                assert(self.owner_entry_index.model() =~~= fam);
            }
        }
        let mut number_set = match self.owner_number_index.get(&owner_addr) {
            Some(s) => s.clone(),
            None => NumberSet::new(),
        };
        proof {
            if prev.owner_number_index.spec_contains(owner_addr@) {
                let j = index_of(prev.owner_number_index.key_model(), owner_addr@);
                prev.owner_number_index.lemma_get_at(j);
                assert(distinct(prev.owner_number_index.model()[j].1));
                assert(number_set.wf());
            }
        }
        number_set.insert(number);
        self.owner_number_index.insert(&owner_addr, number_set);
        proof {
            let fam = family_add(prev.owner_number_index.model(), owner_addr@, number);
            let prev_fam_keys = prev.owner_number_index.model().map_values(
                |p: (Seq<char>, Seq<i32>)| p.0,
            );
            prev.owner_number_index.lemma_models_agree();
            assert(prev_fam_keys =~= prev.owner_number_index.key_model());
            if prev.owner_number_index.spec_contains(owner_addr@) {
                let j = index_of(prev.owner_number_index.key_model(), owner_addr@);
                assert(index_of(prev_fam_keys, owner_addr@) == j);
                assert(self.owner_number_index.model() =~~= fam);
            } else {
                assert(self.owner_number_index.model() =~~= fam);
            }
        }
        if make_public {
            proof {
                assert(prev.ids_ok(prev.global_public_entry_index@));
                assert forall|k: int|
                    0 <= k < prev.global_public_entry_index@.len() implies occurs(
                    prev.entries.key_model(),
                    #[trigger] prev.global_public_entry_index@[k],
                ) by {
                    assert(prev.entries.spec_contains(prev.global_public_entry_index@[k]));
                }
                crate::state::ordered::lemma_distinct_contained_len(
                    prev.global_public_entry_index@,
                    prev.entries.key_model(),
                );
                prev.entries.lemma_models_agree();
                prev.number_public_index.lemma_models_agree();
                assert forall|j: int|
                    0 <= j < prev.number_public_index.model().len() implies distinct(
                    #[trigger] prev.number_public_index.model()[j].1,
                ) && prev.number_public_index.model()[j].1.len() < u32::MAX by {
                    let ids = prev.number_public_index.model()[j].1;
                    assert forall|k: int| 0 <= k < ids.len() implies occurs(
                        prev.entries.key_model(),
                        #[trigger] ids[k],
                    ) by {
                        assert(prev.global_public_entry_index.spec_contains(ids[k]));
                        let t = index_of(prev.global_public_entry_index@, ids[k]);
                        assert(prev.entries.spec_contains(prev.global_public_entry_index@[t]));
                    }
                    crate::state::ordered::lemma_distinct_contained_len(
                        ids,
                        prev.entries.key_model(),
                    );
                }
                assert forall|j: int|
                    0 <= j < prev.number_public_index.key_model().len() implies occurs(
                    prev.entry_numbers(),
                    #[trigger] prev.number_public_index.key_model()[j],
                ) by {
                    assert(occurs(
                        prev.entry_numbers(),
                        prev.number_public_index.key_model()[j],
                    ));
                }
                crate::state::ordered::lemma_distinct_contained_len(
                    prev.number_public_index.key_model(),
                    prev.entry_numbers(),
                );
            }
            self.add_entry_id_to_public_entry_indexes(number, &next_sqid);
        }
        proof {
            self.lemma_add_wf(prev, next_sqid@, owner_addr@, e);
        }
        Ok(())
    }

    /// Whether `sender` may touch the entry under `entry_id`: the owner
    /// index, not the stored owner field, decides.
    pub open spec fn authorized(&self, sender: Seq<char>, entry_id: Seq<char>) -> bool {
        occurs(self.owned_ids(sender), entry_id)
    }

    /// The entry under `entry_id` after an update at `now`: the memo is
    /// replaced, `updated_at` refreshed, and the visibility flag set on a
    /// private-to-public transition, cleared on a public-to-private one, and
    /// kept otherwise.
    pub open spec fn updated_entry(
        old_e: BookmarkedNumberEntryModel,
        memo: Seq<char>,
        mark: bool,
        now: Timestamp,
    ) -> BookmarkedNumberEntryModel {
        BookmarkedNumberEntryModel {
            owner_addr: old_e.owner_addr,
            number: old_e.number,
            memo_text: memo,
            marked_as_public_at: if old_e.marked_as_public_at is None && mark {
                Some(now)
            } else if old_e.marked_as_public_at is Some && !mark {
                None
            } else {
                old_e.marked_as_public_at
            },
            created_at: old_e.created_at,
            updated_at: now,
        }
    }

    /// Whether `entry_id` still stands in the global public index after it
    /// was made public or private.
    fn can_be_deleted_from_global_public_entry_index_without_order_change(
        &self,
        entry_id: &String,
    ) -> (r: bool)
        requires
            self.global_public_entry_index.wf(),
        ensures
            r == self.removable(entry_id@),
    {
        // tolerate an id already absent from the index: treat it as removable
        if !self.global_public_entry_index.contains(entry_id) {
            return true;
        }
        let last_item_vec = match keyset_reverse_paging(&self.global_public_entry_index, 0, 1) {
            Ok(v) => v,
            Err(_) => {
                proof {
                    assert(false);
                }
                Vec::new()
            },
        };
        proof {
            let pubs = self.global_public_entry_index@;
            assert(pubs.len() > 0);
            assert(page_of(pubs.reverse(), 0, 1).len() == 1);
            assert(last_item_vec@.map_values(|s: String| s@).len() == 1);
            assert(last_item_vec@.map_values(|s: String| s@)[0] == page_of(
                pubs.reverse(),
                0,
                1,
            )[0]);
            assert(page_of(pubs.reverse(), 0, 1)[0] == pubs.reverse()[0]);
            assert(pubs.reverse()[0] == pubs[pubs.len() - 1]);
            assert(last_item_vec@[0]@ == pubs[pubs.len() - 1]);
        }
        if last_item_vec.len() > 0 {
            last_item_vec[0] == *entry_id
        } else {
            proof {
                assert(false);
            }
            false
        }
    }

    /// Takes `entry_id` out of the global public index and out of the
    /// per-number fan-out under `entry_number`; an id already absent is
    /// tolerated and nothing changes.
    fn remove_entry_id_from_public_entry_indexes(&mut self, entry_number: i32, entry_id: &String)
        requires
            old(self).global_public_entry_index.wf(),
            old(self).number_public_index.wf(),
            old(self).number_public_index.model().len() < u32::MAX,
            forall|j: int|
                0 <= j < old(self).number_public_index.model().len() ==> distinct(
                    #[trigger] old(self).number_public_index.model()[j].1,
                ) && old(self).number_public_index.model()[j].1.len() <= u32::MAX,
            old(self).global_public_entry_index.spec_contains(entry_id@) ==> old(self).number_public_index.spec_contains(entry_number) && occurs(
                old(self).number_public_index.spec_get(entry_number),
                entry_id@,
            ),
        ensures
            final(self).global_public_entry_index.wf(),
            final(self).number_public_index.wf(),
            !old(self).global_public_entry_index.spec_contains(entry_id@) ==> final(self).global_public_entry_index == old(self).global_public_entry_index && final(self).number_public_index == old(self).number_public_index,
            old(self).global_public_entry_index.spec_contains(entry_id@) ==> final(self).global_public_entry_index@ == swap_removed(
                old(self).global_public_entry_index@,
                index_of(old(self).global_public_entry_index@, entry_id@),
            ) && final(self).number_public_index.model() == family_remove(
                old(self).number_public_index.model(),
                entry_number,
                entry_id@,
            ),
            final(self).entries == old(self).entries,
            final(self).owner_entry_index == old(self).owner_entry_index,
            final(self).owner_number_index == old(self).owner_number_index,
            final(self).next_id == old(self).next_id,
    {
        // tolerate an id already absent from the index
        if !self.global_public_entry_index.contains(entry_id) {
            return ;
        }
        let removed = self.global_public_entry_index.remove(entry_id);
        proof {
            assert(removed is Ok);
        }
        let mut number_set = match self.number_public_index.get(entry_number) {
            Some(s) => s.clone(),
            None => StringSet::new(),
        };
        proof {
            let j = index_of(old(self).number_public_index.key_model(), entry_number);
            old(self).number_public_index.lemma_get_at(j);
            assert(distinct(old(self).number_public_index.model()[j].1));
            assert(number_set.wf());
        }
        let removed_from_number = number_set.remove(entry_id);
        proof {
            assert(removed_from_number is Ok);
        }
        self.number_public_index.insert(entry_number, number_set);
        proof {
            let fam = family_remove(
                old(self).number_public_index.model(),
                entry_number,
                entry_id@,
            );
            let prev_fam_keys = old(self).number_public_index.model().map_values(
                |p: (i32, Seq<Seq<char>>)| p.0,
            );
            old(self).number_public_index.lemma_models_agree();
            assert(prev_fam_keys =~= old(self).number_public_index.key_model());
            let j = index_of(old(self).number_public_index.key_model(), entry_number);
            assert(index_of(prev_fam_keys, entry_number) == j);
            assert(self.number_public_index.model() =~~= fam);
        }
    }

    /// Rewrites one entry: always the memo and `updated_at`; the visibility
    /// transition is applied when asked for, and a public entry other than
    /// the last one marked public cannot be made private. Fails — changing
    /// nothing — for an unknown id, a caller that is not the owner, or that
    /// blocked transition.
    pub fn update_one_entry(
        &mut self,
        now: Timestamp,
        sender_addr: String,
        payload: UpdateOneEntryPayload,
    ) -> (r: Result<(), ContractError>)
        requires
            old(self).wf(),
        ensures
            final(self).wf(),
            !old(self).entries.spec_contains(payload.entry_id@) ==> r == Err::<(), ContractError>(
                ContractError::NotFound,
            ) && *final(self) == *old(self),
            old(self).entries.spec_contains(payload.entry_id@) && !old(self).authorized(
                sender_addr@,
                payload.entry_id@,
            ) ==> r == Err::<(), ContractError>(ContractError::Unauthorized) && *final(self)
                == *old(self),
            old(self).entries.spec_contains(payload.entry_id@) && old(self).authorized(
                sender_addr@,
                payload.entry_id@,
            ) && old(self).entries.spec_get(payload.entry_id@).marked_as_public_at is Some
                && !payload.mark_entry_as_public && !old(self).removable(payload.entry_id@) ==> r
                == Err::<(), ContractError>(ContractError::UnsupportedTransition) && *final(self)
                == *old(self),
            old(self).entries.spec_contains(payload.entry_id@) && old(self).authorized(
                sender_addr@,
                payload.entry_id@,
            ) && !(old(self).entries.spec_get(payload.entry_id@).marked_as_public_at is Some
                && !payload.mark_entry_as_public && !old(self).removable(payload.entry_id@)) ==> {
                let old_e = old(self).entries.spec_get(payload.entry_id@);
                let new_e = Self::updated_entry(
                    old_e,
                    payload.memo_text@,
                    payload.mark_entry_as_public,
                    now,
                );
                &&& r == Ok::<(), ContractError>(())
                &&& final(self).entries.model() == old(self).entries.model().update(
                    index_of(old(self).entries.key_model(), payload.entry_id@),
                    (payload.entry_id@, new_e),
                )
                &&& final(self).owner_entry_index == old(self).owner_entry_index
                &&& final(self).owner_number_index == old(self).owner_number_index
                &&& final(self).next_id == old(self).next_id
                &&& (old_e.marked_as_public_at is None && payload.mark_entry_as_public ==> final(self).global_public_entry_index@ == old(self).global_public_entry_index@.push(
                    payload.entry_id@,
                ) && final(self).number_public_index.model() == family_add(
                    old(self).number_public_index.model(),
                    old_e.number,
                    payload.entry_id@,
                ))
                &&& (old_e.marked_as_public_at is Some && !payload.mark_entry_as_public ==> final(self).global_public_entry_index@ == old(self).global_public_entry_index@.drop_last()
                    && final(self).number_public_index.model() == family_remove(
                    old(self).number_public_index.model(),
                    old_e.number,
                    payload.entry_id@,
                ))
                &&& ((old_e.marked_as_public_at is Some) == payload.mark_entry_as_public ==> final(self).global_public_entry_index == old(self).global_public_entry_index && final(self).number_public_index == old(self).number_public_index)
            },
    {
        if !self.entries.contains(&payload.entry_id) {
            return Err(ContractError::NotFound);
        }
        // only the owner, as the owner index records it, can edit
        let is_owner = match self.owner_entry_index.get(&sender_addr) {
            Some(s) => s.contains(&payload.entry_id),
            None => false,
        };
        proof {
            if old(self).owner_entry_index.spec_contains(sender_addr@) {
                let j = index_of(old(self).owner_entry_index.key_model(), sender_addr@);
                old(self).owner_entry_index.lemma_get_at(j);
            }
        }
        if !is_owner {
            return Err(ContractError::Unauthorized);
        }
        let ghost prev = *old(self);
        let mut entry = match self.entries.get(&payload.entry_id) {
            Some(e) => e.clone(),
            None => {
                proof {
                    assert(false);
                }
                return Err(ContractError::NotFound);
            },
        };
        let ghost old_e = prev.entries.spec_get(payload.entry_id@);
        proof {
            let i = index_of(prev.entries.key_model(), payload.entry_id@);
            prev.entries.lemma_get_at(i);
        }
        if entry.marked_as_public_at.is_none() && payload.mark_entry_as_public {
            entry.marked_as_public_at = Some(now);
            proof {
                self.lemma_public_insert_preconditions(prev);
                let i = index_of(prev.entries.key_model(), payload.entry_id@);
                assert(prev.entries.model()[i].1.marked_as_public_at is None);
                if prev.global_public_entry_index.spec_contains(payload.entry_id@) {
                    assert(prev.entries.model()[i].1.marked_as_public_at is Some);
                    assert(false);
                }
            }
            self.add_entry_id_to_public_entry_indexes(entry.number, &payload.entry_id);
        } else if entry.marked_as_public_at.is_some() && !payload.mark_entry_as_public {
            if self.can_be_deleted_from_global_public_entry_index_without_order_change(
                &payload.entry_id,
            ) {
                entry.marked_as_public_at = None;
                proof {
                    self.lemma_public_insert_preconditions(prev);
                    let i = index_of(prev.entries.key_model(), payload.entry_id@);
                    assert(prev.entries.model()[i].1.marked_as_public_at is Some);
                    assert(prev.global_public_entry_index.spec_contains(payload.entry_id@));
                }
                self.remove_entry_id_from_public_entry_indexes(entry.number, &payload.entry_id);
                proof {
                    let pubs = prev.global_public_entry_index@;
                    let q = index_of(pubs, payload.entry_id@);
                    assert(pubs[q] == payload.entry_id@);
                    assert(pubs[pubs.len() - 1] == payload.entry_id@);
                    assert(q == pubs.len() - 1);
                    assert(self.global_public_entry_index@ =~= pubs.drop_last());
                }
            } else {
                return Err(ContractError::UnsupportedTransition);
            }
        }
        entry.memo_text = payload.memo_text;
        // always refresh this
        entry.updated_at = now;
        let ghost new_e = entry@;
        self.entries.insert(&payload.entry_id, entry);
        proof {
            assert(new_e == Self::updated_entry(
                old_e,
                payload.memo_text@,
                payload.mark_entry_as_public,
                now,
            ));
            self.lemma_update_wf(prev, payload.entry_id@, new_e);
        }
        Ok(())
    }

    /// One entry, for its owner's eyes: the owner index decides who may read
    /// it.
    pub fn get_one_owned_entry(&self, viewer_addr: String, entry_id: String) -> (r: Result<
        BookmarkedNumberEntry,
        ContractError,
    >)
        requires
            self.wf(),
        ensures
            !self.entries.spec_contains(entry_id@) ==> r == Err::<
                BookmarkedNumberEntry,
                ContractError,
            >(ContractError::NotFound),
            self.entries.spec_contains(entry_id@) && !self.authorized(viewer_addr@, entry_id@)
                ==> r == Err::<BookmarkedNumberEntry, ContractError>(ContractError::Unauthorized),
            self.entries.spec_contains(entry_id@) && self.authorized(viewer_addr@, entry_id@)
                ==> (r matches Ok(e) && e@ == self.entries.spec_get(entry_id@)),
    {
        if !self.entries.contains(&entry_id) {
            return Err(ContractError::NotFound);
        }
        // only the owner, as the owner index records it, can fetch
        let is_owner = match self.owner_entry_index.get(&viewer_addr) {
            Some(s) => s.contains(&entry_id),
            None => false,
        };
        proof {
            if self.owner_entry_index.spec_contains(viewer_addr@) {
                let j = index_of(self.owner_entry_index.key_model(), viewer_addr@);
                self.owner_entry_index.lemma_get_at(j);
            }
        }
        if !is_owner {
            return Err(ContractError::Unauthorized);
        }
        match self.entries.get(&entry_id) {
            Some(e) => Ok(e.clone()),
            None => {
                proof {
                    assert(false);
                }
                Err(ContractError::NotFound)
            },
        }
    }

    /// Resolves each id of `ids` against the primary map, in order, keeping
    /// the ids beside the entries.
    fn resolve_pairs(&self, ids: &Vec<String>) -> (r: Vec<(String, BookmarkedNumberEntry)>)
        requires
            self.entries.wf(),
            forall|k: int|
                0 <= k < ids@.len() ==> self.entries.spec_contains(#[trigger] ids@[k]@),
        ensures
            r@.len() == ids@.len(),
            forall|k: int|
                0 <= k < ids@.len() ==> (#[trigger] r@[k]).0@ == ids@[k]@ && r@[k].1@
                    == self.entries.spec_get(ids@[k]@),
    {
        let mut out: Vec<(String, BookmarkedNumberEntry)> = Vec::new();
        let mut i: usize = 0;
        while i < ids.len()
            invariant
                i <= ids@.len(),
                out@.len() == i,
                self.entries.wf(),
                forall|k: int|
                    0 <= k < ids@.len() ==> self.entries.spec_contains(#[trigger] ids@[k]@),
                forall|k: int|
                    0 <= k < i ==> (#[trigger] out@[k]).0@ == ids@[k]@ && out@[k].1@
                        == self.entries.spec_get(ids@[k]@),
            decreases ids@.len() - i,
        {
            let entry = self.entries.get(&ids[i]).unwrap();
            out.push((ids[i].clone(), entry.clone()));
            i = i + 1;
        }
        out
    }

    /// What a page query returns: each id of the page beside its entry.
    pub open spec fn spec_page_pairs(&self, src: Seq<Seq<char>>, page: u32, size: u32) -> Seq<
        (Seq<char>, BookmarkedNumberEntryModel),
    > {
        page_of(src, page, size).map_values(
            |id: Seq<char>| (id, self.entries.spec_get(id)),
        )
    }

    /// One page of all entries, in either direction.
    pub fn get_global_entries(
        &self,
        page_zero_based: u32,
        page_size: u32,
        reverse_order: bool,
    ) -> (r: Result<Vec<(String, BookmarkedNumberEntry)>, ContractError>)
        requires
            self.wf(),
        ensures
            r is Ok <==> page_in_bounds(self.entries.model(), page_zero_based, page_size),
            r is Err ==> r == Err::<Vec<(String, BookmarkedNumberEntry)>, ContractError>(
                ContractError::OutOfBounds,
            ),
            r matches Ok(v) ==> v@.map_values(
                |p: (String, BookmarkedNumberEntry)| (p.0@, p.1@),
            ) == self.spec_page_pairs(
                read_order(self.entries.key_model(), reverse_order),
                page_zero_based,
                page_size,
            ),
    {
        proof {
            self.entries.lemma_models_agree();
        }
        let ids = if reverse_order {
            match keymap_reverse_paging(&self.entries, page_zero_based, page_size) {
                Ok(v) => v,
                Err(e) => {
                    return Err(e);
                },
            }
        } else {
            match self.entries.paging_keys(page_zero_based, page_size) {
                Ok(v) => v,
                Err(e) => {
                    return Err(e);
                },
            }
        };
        proof {
            let src = read_order(self.entries.key_model(), reverse_order);
            lemma_page_members(src, page_zero_based, page_size);
            lemma_reverse_members(self.entries.key_model());
            assert forall|k: int| 0 <= k < ids@.len() implies self.entries.spec_contains(
                #[trigger] ids@[k]@,
            ) by {
                assert(ids@[k]@ == page_of(src, page_zero_based, page_size)[k]);
                assert(occurs(src, ids@[k]@));
                if reverse_order {
                    let q = index_of(src, ids@[k]@);
                    assert(occurs(self.entries.key_model(), src[q]));
                }
            }
        }
        let out = self.resolve_pairs(&ids);
        proof {
            assert(out@.map_values(|p: (String, BookmarkedNumberEntry)| (p.0@, p.1@))
                =~= self.spec_page_pairs(
                read_order(self.entries.key_model(), reverse_order),
                page_zero_based,
                page_size,
            ));
        }
        Ok(out)
    }

    /// How many entries there are.
    pub fn get_global_entries_total_count(&self) -> (r: u32)
        requires
            self.wf(),
        ensures
            r == self.entries.model().len(),
    {
        self.entries.get_len()
    }

    /// One page of one owner's entries, in either direction.
    pub fn get_owned_entries(
        &self,
        owner_addr: String,
        page_zero_based: u32,
        page_size: u32,
        reverse_order: bool,
    ) -> (r: Result<Vec<(String, BookmarkedNumberEntry)>, ContractError>)
        requires
            self.wf(),
        ensures
            r is Ok <==> page_in_bounds(self.owned_ids(owner_addr@), page_zero_based, page_size),
            r is Err ==> r == Err::<Vec<(String, BookmarkedNumberEntry)>, ContractError>(
                ContractError::OutOfBounds,
            ),
            r matches Ok(v) ==> v@.map_values(
                |p: (String, BookmarkedNumberEntry)| (p.0@, p.1@),
            ) == self.spec_page_pairs(
                read_order(self.owned_ids(owner_addr@), reverse_order),
                page_zero_based,
                page_size,
            ),
    {
        let set = match self.owner_entry_index.get(&owner_addr) {
            Some(s) => s,
            None => {
                let out: Vec<(String, BookmarkedNumberEntry)> = Vec::new();
                proof {
                    assert(out@.map_values(|p: (String, BookmarkedNumberEntry)| (p.0@, p.1@))
                        =~= self.spec_page_pairs(
                        read_order(self.owned_ids(owner_addr@), reverse_order),
                        page_zero_based,
                        page_size,
                    ));
                }
                return Ok(out);
            },
        };
        proof {
            let j = index_of(self.owner_entry_index.key_model(), owner_addr@);
            self.owner_entry_index.lemma_get_at(j);
            assert(self.ids_ok(self.owner_entry_index.model()[j].1));
            assert(set@ == self.owned_ids(owner_addr@));
            assert(set.wf()) by {
                assert forall|k: int| 0 <= k < set@.len() implies occurs(
                    self.entries.key_model(),
                    #[trigger] set@[k],
                ) by {
                    assert(self.entries.spec_contains(set@[k]));
                }
                crate::state::ordered::lemma_distinct_contained_len(
                    set@,
                    self.entries.key_model(),
                );
                self.entries.lemma_models_agree();
            }
        }
        let ids = if reverse_order {
            match keyset_reverse_paging(set, page_zero_based, page_size) {
                Ok(v) => v,
                Err(e) => {
                    return Err(e);
                },
            }
        } else {
            match set.paging(page_zero_based, page_size) {
                Ok(v) => v,
                Err(e) => {
                    return Err(e);
                },
            }
        };
        proof {
            let src = read_order(set@, reverse_order);
            lemma_page_members(src, page_zero_based, page_size);
            lemma_reverse_members(set@);
            assert forall|k: int| 0 <= k < ids@.len() implies self.entries.spec_contains(
                #[trigger] ids@[k]@,
            ) by {
                assert(ids@[k]@ == page_of(src, page_zero_based, page_size)[k]);
                assert(occurs(src, ids@[k]@));
                let q = index_of(src, ids@[k]@);
                if reverse_order {
                    assert(occurs(set@, src[q]));
                }
                let t = index_of(set@, ids@[k]@);
                assert(self.entries.spec_contains(set@[t]));
            }
        }
        let out = self.resolve_pairs(&ids);
        proof {
            assert(out@.map_values(|p: (String, BookmarkedNumberEntry)| (p.0@, p.1@))
                =~= self.spec_page_pairs(
                read_order(self.owned_ids(owner_addr@), reverse_order),
                page_zero_based,
                page_size,
            ));
        }
        Ok(out)
    }

    /// How many entries one owner has.
    pub fn get_owned_entries_total_count(&self, owner_addr: String) -> (r: u32)
        requires
            self.wf(),
        ensures
            r == self.owned_ids(owner_addr@).len(),
    {
        match self.owner_entry_index.get(&owner_addr) {
            Some(s) => {
                proof {
                    let j = index_of(self.owner_entry_index.key_model(), owner_addr@);
                    self.owner_entry_index.lemma_get_at(j);
                    assert(self.ids_ok(self.owner_entry_index.model()[j].1));
                    assert forall|k: int| 0 <= k < s@.len() implies occurs(
                        self.entries.key_model(),
                        #[trigger] s@[k],
                    ) by {
                        assert(self.entries.spec_contains(s@[k]));
                    }
                    crate::state::ordered::lemma_distinct_contained_len(
                        s@,
                        self.entries.key_model(),
                    );
                    self.entries.lemma_models_agree();
                }
                s.get_len()
            },
            None => 0,
        }
    }

    /// One page of the public entries, in either direction.
    pub fn get_public_entries(
        &self,
        page_zero_based: u32,
        page_size: u32,
        reverse_order: bool,
    ) -> (r: Result<Vec<(String, BookmarkedNumberEntry)>, ContractError>)
        requires
            self.wf(),
        ensures
            r is Ok <==> page_in_bounds(
                self.global_public_entry_index@,
                page_zero_based,
                page_size,
            ),
            r is Err ==> r == Err::<Vec<(String, BookmarkedNumberEntry)>, ContractError>(
                ContractError::OutOfBounds,
            ),
            r matches Ok(v) ==> v@.map_values(
                |p: (String, BookmarkedNumberEntry)| (p.0@, p.1@),
            ) == self.spec_page_pairs(
                read_order(self.global_public_entry_index@, reverse_order),
                page_zero_based,
                page_size,
            ),
    {
        let ids = if reverse_order {
            match keyset_reverse_paging(
                &self.global_public_entry_index,
                page_zero_based,
                page_size,
            ) {
                Ok(v) => v,
                Err(e) => {
                    return Err(e);
                },
            }
        } else {
            match self.global_public_entry_index.paging(page_zero_based, page_size) {
                Ok(v) => v,
                Err(e) => {
                    return Err(e);
                },
            }
        };
        proof {
            let src = read_order(self.global_public_entry_index@, reverse_order);
            lemma_page_members(src, page_zero_based, page_size);
            lemma_reverse_members(self.global_public_entry_index@);
            assert forall|k: int| 0 <= k < ids@.len() implies self.entries.spec_contains(
                #[trigger] ids@[k]@,
            ) by {
                assert(ids@[k]@ == page_of(src, page_zero_based, page_size)[k]);
                assert(occurs(src, ids@[k]@));
                let q = index_of(src, ids@[k]@);
                if reverse_order {
                    assert(occurs(self.global_public_entry_index@, src[q]));
                }
                let t = index_of(self.global_public_entry_index@, ids@[k]@);
                assert(self.entries.spec_contains(self.global_public_entry_index@[t]));
            }
        }
        let out = self.resolve_pairs(&ids);
        proof {
            assert(out@.map_values(|p: (String, BookmarkedNumberEntry)| (p.0@, p.1@))
                =~= self.spec_page_pairs(
                read_order(self.global_public_entry_index@, reverse_order),
                page_zero_based,
                page_size,
            ));
        }
        Ok(out)
    }

    /// How many public entries there are.
    pub fn get_public_entries_total_count(&self) -> (r: u32)
        requires
            self.wf(),
        ensures
            r == self.global_public_entry_index@.len(),
    {
        self.global_public_entry_index.get_len()
    }

    /// One page of the public entries bookmarking `number`, in either
    /// direction.
    pub fn get_public_entries_by_number(
        &self,
        number: i32,
        page_zero_based: u32,
        page_size: u32,
        reverse_order: bool,
    ) -> (r: Result<Vec<(String, BookmarkedNumberEntry)>, ContractError>)
        requires
            self.wf(),
        ensures
            r is Ok <==> page_in_bounds(
                self.public_ids_by_number(number),
                page_zero_based,
                page_size,
            ),
            r is Err ==> r == Err::<Vec<(String, BookmarkedNumberEntry)>, ContractError>(
                ContractError::OutOfBounds,
            ),
            r matches Ok(v) ==> v@.map_values(
                |p: (String, BookmarkedNumberEntry)| (p.0@, p.1@),
            ) == self.spec_page_pairs(
                read_order(self.public_ids_by_number(number), reverse_order),
                page_zero_based,
                page_size,
            ),
    {
        let set = match self.number_public_index.get(number) {
            Some(s) => s,
            None => {
                let out: Vec<(String, BookmarkedNumberEntry)> = Vec::new();
                proof {
                    assert(out@.map_values(|p: (String, BookmarkedNumberEntry)| (p.0@, p.1@))
                        =~= self.spec_page_pairs(
                        read_order(self.public_ids_by_number(number), reverse_order),
                        page_zero_based,
                        page_size,
                    ));
                }
                return Ok(out);
            },
        };
        proof {
            let j = index_of(self.number_public_index.key_model(), number);
            self.number_public_index.lemma_get_at(j);
            assert(distinct(self.number_public_index.model()[j].1));
            assert(set@ == self.public_ids_by_number(number));
            assert forall|k: int| 0 <= k < set@.len() implies self.entries.spec_contains(
                #[trigger] set@[k],
            ) by {
                assert(self.global_public_entry_index.spec_contains(set@[k]));
                let t = index_of(self.global_public_entry_index@, set@[k]);
                assert(self.entries.spec_contains(self.global_public_entry_index@[t]));
            }
            assert(set.wf()) by {
                assert forall|k: int| 0 <= k < set@.len() implies occurs(
                    self.entries.key_model(),
                    #[trigger] set@[k],
                ) by {
                    assert(self.entries.spec_contains(set@[k]));
                }
                crate::state::ordered::lemma_distinct_contained_len(
                    set@,
                    self.entries.key_model(),
                );
                self.entries.lemma_models_agree();
            }
        }
        let ids = if reverse_order {
            match keyset_reverse_paging(set, page_zero_based, page_size) {
                Ok(v) => v,
                Err(e) => {
                    return Err(e);
                },
            }
        } else {
            match set.paging(page_zero_based, page_size) {
                Ok(v) => v,
                Err(e) => {
                    return Err(e);
                },
            }
        };
        proof {
            let src = read_order(set@, reverse_order);
            lemma_page_members(src, page_zero_based, page_size);
            lemma_reverse_members(set@);
            assert forall|k: int| 0 <= k < ids@.len() implies self.entries.spec_contains(
                #[trigger] ids@[k]@,
            ) by {
                assert(ids@[k]@ == page_of(src, page_zero_based, page_size)[k]);
                assert(occurs(src, ids@[k]@));
                let q = index_of(src, ids@[k]@);
                if reverse_order {
                    assert(occurs(set@, src[q]));
                }
                let t = index_of(set@, ids@[k]@);
                assert(self.entries.spec_contains(set@[t]));
            }
        }
        let out = self.resolve_pairs(&ids);
        proof {
            assert(out@.map_values(|p: (String, BookmarkedNumberEntry)| (p.0@, p.1@))
                =~= self.spec_page_pairs(
                read_order(self.public_ids_by_number(number), reverse_order),
                page_zero_based,
                page_size,
            ));
        }
        Ok(out)
    }

    /// How many public entries bookmark `number`.
    pub fn get_public_entries_by_number_total_count(&self, number: i32) -> (r: u32)
        requires
            self.wf(),
        ensures
            r == self.public_ids_by_number(number).len(),
    {
        match self.number_public_index.get(number) {
            Some(s) => {
                proof {
                    let j = index_of(self.number_public_index.key_model(), number);
                    self.number_public_index.lemma_get_at(j);
                    assert(distinct(self.number_public_index.model()[j].1));
                    assert forall|k: int| 0 <= k < s@.len() implies occurs(
                        self.entries.key_model(),
                        #[trigger] s@[k],
                    ) by {
                        assert(self.global_public_entry_index.spec_contains(s@[k]));
                        let t = index_of(self.global_public_entry_index@, s@[k]);
                        assert(self.entries.spec_contains(self.global_public_entry_index@[t]));
                    }
                    crate::state::ordered::lemma_distinct_contained_len(
                        s@,
                        self.entries.key_model(),
                    );
                    self.entries.lemma_models_agree();
                }
                s.get_len()
            },
            None => 0,
        }
    }

    /// A successful creation takes the owner's number: a second creation by
    /// the same owner with the same number then fails with the duplicate
    /// error, while every other owner's numbers are exactly as before — a
    /// different owner may still bookmark the same number.
    pub proof fn lemma_duplicate_number_rejected(
        prev: BookmarkedNumbersManager,
        post: BookmarkedNumbersManager,
        owner: Seq<char>,
        number: i32,
        other: Seq<char>,
    )
        requires
            prev.owner_number_index.wf(),
            post.owner_number_index.wf(),
            post.owner_number_index.model() == family_add(
                prev.owner_number_index.model(),
                owner,
                number,
            ),
            other != owner,
        ensures
            post.has_number(owner, number),
            post.has_number(other, number) == prev.has_number(other, number),
    {
        let m = prev.owner_number_index.model();
        let fam_keys = m.map_values(|p: (Seq<char>, Seq<i32>)| p.0);
        prev.owner_number_index.lemma_models_agree();
        post.owner_number_index.lemma_models_agree();
        assert(fam_keys =~= prev.owner_number_index.key_model());
        let post_m = post.owner_number_index.model();
        if occurs(fam_keys, owner) {
            let t = index_of(fam_keys, owner);
            prev.owner_number_index.lemma_get_at(t);
            if occurs(m[t].1, number) {
                assert(post_m == m);
                assert(post.owner_number_index.key_model() =~= prev.owner_number_index.key_model());
                assert(post.owner_number_index.spec_contains(owner));
                assert(index_of(post.owner_number_index.key_model(), owner) == t);
                assert(post.owner_number_index.spec_get(owner) == m[t].1);
            } else {
                assert(post_m == m.update(t, (owner, m[t].1.push(number))));
                assert(post.owner_number_index.key_model() =~= prev.owner_number_index.key_model());
                assert(post.owner_number_index.spec_contains(owner));
                assert(index_of(post.owner_number_index.key_model(), owner) == t) by {
                    let q = index_of(post.owner_number_index.key_model(), owner);
                    assert(post.owner_number_index.key_model()[t] == owner);
                    assert(post.owner_number_index.key_model()[q] == owner);
                }
                assert(post.owner_number_index.spec_get(owner) == m[t].1.push(number));
                assert(m[t].1.push(number)[m[t].1.len() as int] == number);
                assert(occurs(m[t].1.push(number), number));
            }
            if prev.owner_number_index.spec_contains(other) {
                let q = index_of(prev.owner_number_index.key_model(), other);
                prev.owner_number_index.lemma_get_at(q);
                assert(q != t);
                assert(post.owner_number_index.key_model()[q] == other);
                assert(occurs(post.owner_number_index.key_model(), other));
                assert(index_of(post.owner_number_index.key_model(), other) == q) by {
                    let q2 = index_of(post.owner_number_index.key_model(), other);
                    assert(post.owner_number_index.key_model()[q2] == other);
                }
                assert(post.owner_number_index.spec_get(other) == m[q].1);
            } else {
                if post.owner_number_index.spec_contains(other) {
                    let q = index_of(post.owner_number_index.key_model(), other);
                    assert(post.owner_number_index.key_model()[q] == other);
                    assert(prev.owner_number_index.key_model()[q] == other);
                    assert(occurs(prev.owner_number_index.key_model(), other));
                    assert(false);
                }
            }
        } else {
            assert(post_m == m.push((owner, Seq::<i32>::empty().push(number))));
            assert(post.owner_number_index.key_model() =~= prev.owner_number_index.key_model().push(
                owner,
            ));
            let last = post.owner_number_index.key_model().len() - 1;
            assert(post.owner_number_index.key_model()[last] == owner);
            assert(post.owner_number_index.spec_contains(owner));
            assert(index_of(post.owner_number_index.key_model(), owner) == last) by {
                let q = index_of(post.owner_number_index.key_model(), owner);
                assert(post.owner_number_index.key_model()[q] == owner);
            }
            assert(post.owner_number_index.spec_get(owner) == Seq::<i32>::empty().push(number));
            assert(Seq::<i32>::empty().push(number)[0] == number);
            assert(occurs(Seq::<i32>::empty().push(number), number));
            if prev.owner_number_index.spec_contains(other) {
                let q = index_of(prev.owner_number_index.key_model(), other);
                prev.owner_number_index.lemma_get_at(q);
                assert(post.owner_number_index.key_model()[q] == other);
                assert(occurs(post.owner_number_index.key_model(), other));
                assert(index_of(post.owner_number_index.key_model(), other) == q) by {
                    let q2 = index_of(post.owner_number_index.key_model(), other);
                    assert(post.owner_number_index.key_model()[q2] == other);
                }
                assert(post.owner_number_index.spec_get(other) == m[q].1);
            } else {
                if post.owner_number_index.spec_contains(other) {
                    let q = index_of(post.owner_number_index.key_model(), other);
                    assert(post.owner_number_index.key_model()[q] == other);
                    assert(q < last);
                    assert(prev.owner_number_index.key_model()[q] == other);
                    assert(occurs(prev.owner_number_index.key_model(), other));
                    assert(false);
                }
            }
        }
    }

    /// Marking an entry public and then immediately private again restores
    /// the public indexes: the second transition is always allowed, since
    /// the fresh entry is the last one marked public; the global index
    /// returns to exactly its old order; and the per-number fan-out returns
    /// to its old contents — at most an empty set remains under a number
    /// seen for the first time.
    pub proof fn lemma_publish_then_unpublish_restores(
        m0: BookmarkedNumbersManager,
        m1: BookmarkedNumbersManager,
        m2: BookmarkedNumbersManager,
        eid: Seq<char>,
        n: i32,
    )
        requires
            m0.wf(),
            !m0.global_public_entry_index.spec_contains(eid),
            m1.global_public_entry_index@ == m0.global_public_entry_index@.push(eid),
            m1.number_public_index.model() == family_add(
                m0.number_public_index.model(),
                n,
                eid,
            ),
            m2.global_public_entry_index@ == m1.global_public_entry_index@.drop_last(),
            m2.number_public_index.model() == family_remove(
                m1.number_public_index.model(),
                n,
                eid,
            ),
        ensures
            m1.removable(eid),
            m2.global_public_entry_index@ == m0.global_public_entry_index@,
            m0.number_public_index.spec_contains(n) ==> m2.number_public_index.model()
                == m0.number_public_index.model(),
            !m0.number_public_index.spec_contains(n) ==> m2.number_public_index.model()
                == m0.number_public_index.model().push((n, Seq::<Seq<char>>::empty())),
    {
        let pubs1 = m1.global_public_entry_index@;
        assert(pubs1[pubs1.len() - 1] == eid);
        assert(m1.removable(eid));
        assert(m2.global_public_entry_index@ =~= m0.global_public_entry_index@);
        let nm0 = m0.number_public_index.model();
        let nm1 = m1.number_public_index.model();
        let nm0_keys = nm0.map_values(|p: (i32, Seq<Seq<char>>)| p.0);
        let nm1_keys = nm1.map_values(|p: (i32, Seq<Seq<char>>)| p.0);
        m0.number_public_index.lemma_models_agree();
        assert(nm0_keys =~= m0.number_public_index.key_model());
        if occurs(nm0_keys, n) {
            let t = index_of(nm0_keys, n);
            m0.number_public_index.lemma_get_at(t);
            let prior = nm0[t].1;
            assert(!occurs(prior, eid)) by {
                if occurs(prior, eid) {
                    let k = index_of(prior, eid);
                    assert(prior[k] == eid);
                    assert(m0.global_public_entry_index.spec_contains(nm0[t].1[k]));
                    assert(false);
                }
            }
            assert(nm1 == nm0.update(t, (n, prior.push(eid))));
            assert(nm1_keys =~= nm0_keys);
            assert(occurs(nm1_keys, n));
            assert(index_of(nm1_keys, n) == t) by {
                let q = index_of(nm1_keys, n);
                assert(nm1_keys[q] == n);
                assert(nm0_keys[q] == n);
                assert(nm0_keys[t] == n);
                assert(crate::state::ordered::distinct(nm0_keys));
            }
            let extended = prior.push(eid);
            assert(nm1[t].1 == extended);
            assert(occurs(extended, eid)) by {
                assert(extended[extended.len() - 1] == eid);
            }
            assert(index_of(extended, eid) == extended.len() - 1) by {
                let k = index_of(extended, eid);
                assert(extended[k] == eid);
                if k < prior.len() {
                    assert(prior[k] == eid);
                    assert(false);
                }
            }
            assert(swap_removed(extended, extended.len() - 1) =~= prior);
            assert(m2.number_public_index.model() =~~= nm0) by {
                assert(m2.number_public_index.model() == nm1.update(t, (n, prior)));
                assert(nm1.update(t, (n, prior)) =~~= nm0);
            }
        } else {
            assert(nm1 == nm0.push((n, Seq::<Seq<char>>::empty().push(eid))));
            assert(nm1_keys =~= nm0_keys.push(n));
            let last = nm1_keys.len() - 1;
            assert(nm1_keys[last] == n);
            assert(occurs(nm1_keys, n));
            assert(index_of(nm1_keys, n) == last) by {
                let q = index_of(nm1_keys, n);
                assert(nm1_keys[q] == n);
                if q < last {
                    assert(nm0_keys[q] == n);
                    assert(occurs(nm0_keys, n));
                    assert(false);
                }
            }
            let single = Seq::<Seq<char>>::empty().push(eid);
            assert(nm1[last].1 == single);
            assert(occurs(single, eid)) by {
                assert(single[0] == eid);
            }
            assert(index_of(single, eid) == 0) by {
                let k = index_of(single, eid);
            }
            assert(swap_removed(single, 0) =~= Seq::<Seq<char>>::empty());
            assert(m2.number_public_index.model() =~~= nm0.push((n, Seq::<Seq<char>>::empty())))
                by {
                assert(m2.number_public_index.model() == nm1.update(
                    last,
                    (n, swap_removed(single, 0)),
                ));
            }
        }
    }

    /// The bounds that inserting into the public indexes needs, derived from
    /// the invariant.
    proof fn lemma_public_insert_preconditions(&self, prev: BookmarkedNumbersManager)
        requires
            prev.wf(),
            *self == prev,
        ensures
            self.global_public_entry_index@.len() < u32::MAX,
            self.number_public_index.model().len() < u32::MAX,
            forall|j: int|
                0 <= j < self.number_public_index.model().len() ==> distinct(
                    #[trigger] self.number_public_index.model()[j].1,
                ) && self.number_public_index.model()[j].1.len() < u32::MAX,
    {
        assert(prev.ids_ok(prev.global_public_entry_index@));
        assert forall|k: int| 0 <= k < prev.global_public_entry_index@.len() implies occurs(
            prev.entries.key_model(),
            #[trigger] prev.global_public_entry_index@[k],
        ) by {
            assert(prev.entries.spec_contains(prev.global_public_entry_index@[k]));
        }
        crate::state::ordered::lemma_distinct_contained_len(
            prev.global_public_entry_index@,
            prev.entries.key_model(),
        );
        prev.entries.lemma_models_agree();
        prev.number_public_index.lemma_models_agree();
        assert forall|j: int|
            0 <= j < prev.number_public_index.model().len() implies distinct(
            #[trigger] prev.number_public_index.model()[j].1,
        ) && prev.number_public_index.model()[j].1.len() < u32::MAX by {
            let ids = prev.number_public_index.model()[j].1;
            assert forall|k: int| 0 <= k < ids.len() implies occurs(
                prev.entries.key_model(),
                #[trigger] ids[k],
            ) by {
                assert(prev.global_public_entry_index.spec_contains(ids[k]));
                let t = index_of(prev.global_public_entry_index@, ids[k]);
                assert(prev.entries.spec_contains(prev.global_public_entry_index@[t]));
            }
            crate::state::ordered::lemma_distinct_contained_len(ids, prev.entries.key_model());
        }
        assert forall|j: int|
            0 <= j < prev.number_public_index.key_model().len() implies occurs(
            prev.entry_numbers(),
            #[trigger] prev.number_public_index.key_model()[j],
        ) by {
            assert(occurs(prev.entry_numbers(), prev.number_public_index.key_model()[j]));
        }
        crate::state::ordered::lemma_distinct_contained_len(
            prev.number_public_index.key_model(),
            prev.entry_numbers(),
        );
    }

    /// After an update, the invariant holds again.
    proof fn lemma_update_wf(
        &self,
        prev: BookmarkedNumbersManager,
        eid: Seq<char>,
        new_e: BookmarkedNumberEntryModel,
    )
        requires
            prev.wf(),
            prev.entries.spec_contains(eid),
            new_e.owner_addr == prev.entries.spec_get(eid).owner_addr,
            new_e.number == prev.entries.spec_get(eid).number,
            self.entries.model() == prev.entries.model().update(
                index_of(prev.entries.key_model(), eid),
                (eid, new_e),
            ),
            self.entries.wf(),
            self.owner_entry_index == prev.owner_entry_index,
            self.owner_number_index == prev.owner_number_index,
            self.next_id == prev.next_id,
            self.global_public_entry_index.wf(),
            self.number_public_index.wf(),
            prev.entries.spec_get(eid).marked_as_public_at is None && new_e.marked_as_public_at
                is Some ==> self.global_public_entry_index@
                == prev.global_public_entry_index@.push(eid) && self.number_public_index.model()
                == family_add(prev.number_public_index.model(), new_e.number, eid),
            prev.entries.spec_get(eid).marked_as_public_at is Some && new_e.marked_as_public_at
                is None ==> prev.global_public_entry_index@.len() > 0
                && prev.global_public_entry_index@.last() == eid
                && self.global_public_entry_index@ == prev.global_public_entry_index@.drop_last()
                && self.number_public_index.model() == family_remove(
                prev.number_public_index.model(),
                new_e.number,
                eid,
            ),
            (prev.entries.spec_get(eid).marked_as_public_at is Some) == (new_e.marked_as_public_at
                is Some) ==> self.global_public_entry_index == prev.global_public_entry_index
                && self.number_public_index == prev.number_public_index,
        ensures
            self.wf(),
    {
        let i = index_of(prev.entries.key_model(), eid);
        prev.entries.lemma_get_at(i);
        let m = self.entries.model();
        let prev_m = prev.entries.model();
        let keys = self.entries.key_model();
        let prev_keys = prev.entries.key_model();
        self.entries.lemma_models_agree();
        prev.entries.lemma_models_agree();
        assert(keys =~= prev_keys);
        assert(self.entry_numbers() =~= prev.entry_numbers());
        let old_e = prev.entries.spec_get(eid);
        // lookups under every key still land on the same position
        assert forall|k: Seq<char>| occurs(prev_keys, k) implies self.entries.spec_contains(k)
            && index_of(keys, k) == index_of(prev_keys, k) by {
            let q = index_of(prev_keys, k);
            assert(prev_keys[q] == k);
            assert(keys[q] == k);
            assert(occurs(keys, k));
            let q2 = index_of(keys, k);
            assert(keys[q2] == k);
            assert(q2 == q);
        }
        assert forall|k: Seq<char>| occurs(prev_keys, k) && k != eid implies self.entries.spec_get(
            k,
        ) == prev.entries.spec_get(k) by {
            let q = index_of(prev_keys, k);
            assert(q != i);
            assert(m[q] == prev_m[q]);
        }
        assert(self.entries.spec_get(eid) == new_e);
        assert forall|j: int| 0 <= j < m.len() implies id_below(
            #[trigger] keys[j],
            self.next_id,
        ) by {
            assert(id_below(prev_keys[j], prev.next_id));
        }
        assert forall|j: int|
            0 <= j < self.owner_entry_index.model().len() implies self.ids_ok(
            #[trigger] self.owner_entry_index.model()[j].1,
        ) by {
            assert(prev.ids_ok(prev.owner_entry_index.model()[j].1));
            let ids = prev.owner_entry_index.model()[j].1;
            assert forall|k: int| 0 <= k < ids.len() implies self.entries.spec_contains(
                #[trigger] ids[k],
            ) by {
                assert(prev.entries.spec_contains(ids[k]));
                assert(occurs(prev_keys, ids[k]));
            }
        }
        let pubs = self.global_public_entry_index@;
        let prev_pubs = prev.global_public_entry_index@;
        if old_e.marked_as_public_at is None && new_e.marked_as_public_at is Some {
            assert(!occurs(prev_pubs, eid)) by {
                if prev.global_public_entry_index.spec_contains(eid) {
                    assert(prev_m[i].1.marked_as_public_at is Some);
                }
            }
            assert(self.ids_ok(pubs)) by {
                assert forall|k: int| 0 <= k < pubs.len() implies self.entries.spec_contains(
                    #[trigger] pubs[k],
                ) by {
                    if k < prev_pubs.len() {
                        assert(prev.entries.spec_contains(prev_pubs[k]));
                        assert(occurs(prev_keys, prev_pubs[k]));
                    } else {
                        assert(pubs[k] == eid);
                        assert(occurs(prev_keys, eid));
                    }
                }
            }
            assert forall|j: int|
                0 <= j < m.len() implies ((#[trigger] m[j].1.marked_as_public_at) is Some
                <==> self.global_public_entry_index.spec_contains(keys[j])) by {
                if j == i {
                    assert(pubs[pubs.len() - 1] == eid);
                } else {
                    assert(m[j] == prev_m[j]);
                    assert(prev_keys[j] != eid) by {
                        if prev_keys[j] == eid {
                            assert(j == i);
                        }
                    }
                    assert(occurs(pubs, prev_keys[j]) <==> occurs(prev_pubs, prev_keys[j])) by {
                        if occurs(prev_pubs, prev_keys[j]) {
                            let q = index_of(prev_pubs, prev_keys[j]);
                            assert(pubs[q] == prev_keys[j]);
                        }
                        if occurs(pubs, prev_keys[j]) {
                            let q = index_of(pubs, prev_keys[j]);
                            if q == pubs.len() - 1 {
                                assert(prev_keys[j] == eid);
                                assert(false);
                            }
                            assert(prev_pubs[q] == prev_keys[j]);
                        }
                    }
                }
            }
            self.lemma_number_index_after_publish(prev, eid, new_e);
        } else if old_e.marked_as_public_at is Some && new_e.marked_as_public_at is None {
            assert(occurs(prev_pubs, eid)) by {
                assert(prev_m[i].1.marked_as_public_at is Some);
            }
            crate::state::ordered::lemma_swap_removed_props(prev_pubs, prev_pubs.len() - 1);
            assert(swap_removed(prev_pubs, prev_pubs.len() - 1) =~= prev_pubs.drop_last());
            assert(self.ids_ok(pubs)) by {
                assert forall|k: int| 0 <= k < pubs.len() implies self.entries.spec_contains(
                    #[trigger] pubs[k],
                ) by {
                    assert(occurs(prev_pubs.drop_last(), pubs[k]));
                    assert(occurs(prev_pubs, pubs[k]));
                    assert(prev.entries.spec_contains(pubs[k]));
                    assert(occurs(prev_keys, pubs[k]));
                }
            }
            assert forall|j: int|
                0 <= j < m.len() implies ((#[trigger] m[j].1.marked_as_public_at) is Some
                <==> self.global_public_entry_index.spec_contains(keys[j])) by {
                if j == i {
                    assert(!occurs(pubs, eid)) by {
                        if occurs(prev_pubs.drop_last(), eid) {
                            assert(occurs(swap_removed(prev_pubs, prev_pubs.len() - 1), eid));
                            assert(eid != prev_pubs[prev_pubs.len() - 1]);
                            assert(false);
                        }
                    }
                } else {
                    assert(m[j] == prev_m[j]);
                    assert(prev_keys[j] != eid) by {
                        if prev_keys[j] == eid {
                            assert(j == i);
                        }
                    }
                    assert(occurs(pubs, prev_keys[j]) <==> occurs(prev_pubs, prev_keys[j])) by {
                        assert(occurs(swap_removed(prev_pubs, prev_pubs.len() - 1), prev_keys[j])
                            <==> occurs(prev_pubs, prev_keys[j]) && prev_keys[j] != prev_pubs[prev_pubs.len()
                            - 1]);
                    }
                }
            }
            self.lemma_number_index_after_unpublish(prev, eid, new_e);
        } else {
            assert(self.ids_ok(pubs)) by {
                assert forall|k: int| 0 <= k < pubs.len() implies self.entries.spec_contains(
                    #[trigger] pubs[k],
                ) by {
                    assert(prev.entries.spec_contains(pubs[k]));
                    assert(occurs(prev_keys, pubs[k]));
                }
            }
            assert forall|j: int|
                0 <= j < m.len() implies ((#[trigger] m[j].1.marked_as_public_at) is Some
                <==> self.global_public_entry_index.spec_contains(keys[j])) by {
                if j == i {
                    assert(prev_m[i].1.marked_as_public_at is Some <==> occurs(prev_pubs, eid));
                    assert((m[i].1.marked_as_public_at is Some) == (prev_m[i].1.marked_as_public_at
                        is Some));
                } else {
                    assert(m[j] == prev_m[j]);
                }
            }
            assert forall|j: int, k: int|
                #![trigger self.number_public_index.model()[j].1[k]]
                0 <= j < self.number_public_index.model().len() && 0 <= k
                    < self.number_public_index.model()[j].1.len()
                    implies self.global_public_entry_index.spec_contains(
                self.number_public_index.model()[j].1[k],
            ) && self.entries.spec_get(self.number_public_index.model()[j].1[k]).number
                == self.number_public_index.model()[j].0 by {
                let x = prev.number_public_index.model()[j].1[k];
                assert(prev.global_public_entry_index.spec_contains(x));
                assert(prev.entries.spec_get(x).number == prev.number_public_index.model()[j].0);
                assert(occurs(prev_keys, x)) by {
                    let t = index_of(prev_pubs, x);
                    assert(prev.entries.spec_contains(prev_pubs[t]));
                }
                if x == eid {
                    assert(self.entries.spec_get(eid).number == new_e.number);
                } else {
                    assert(self.entries.spec_get(x) == prev.entries.spec_get(x));
                }
            }
            assert forall|k: int|
                #![trigger self.global_public_entry_index@[k]]
                0 <= k < pubs.len() implies self.number_public_index.spec_contains(
                self.entries.spec_get(pubs[k]).number,
            ) && occurs(
                self.number_public_index.spec_get(self.entries.spec_get(pubs[k]).number),
                pubs[k],
            ) by {
                assert(prev.entries.spec_contains(pubs[k]));
                assert(occurs(prev_keys, pubs[k]));
                if pubs[k] == eid {
                    assert(self.entries.spec_get(eid).number == old_e.number);
                } else {
                    assert(self.entries.spec_get(pubs[k]) == prev.entries.spec_get(pubs[k]));
                }
            }
            assert forall|j: int| 0 <= j < self.number_public_index.model().len() implies occurs(
                self.entry_numbers(),
                #[trigger] self.number_public_index.key_model()[j],
            ) by {
                assert(occurs(prev.entry_numbers(), prev.number_public_index.key_model()[j]));
            }
        }
    }

    /// After a private-to-public transition, the per-number fan-out clauses
    /// of the invariant hold again.
    proof fn lemma_number_index_after_publish(
        &self,
        prev: BookmarkedNumbersManager,
        eid: Seq<char>,
        new_e: BookmarkedNumberEntryModel,
    )
        requires
            prev.wf(),
            prev.entries.spec_contains(eid),
            new_e.number == prev.entries.spec_get(eid).number,
            self.entries.model() == prev.entries.model().update(
                index_of(prev.entries.key_model(), eid),
                (eid, new_e),
            ),
            self.entries.wf(),
            !occurs(prev.global_public_entry_index@, eid),
            self.global_public_entry_index@ == prev.global_public_entry_index@.push(eid),
            self.number_public_index.model() == family_add(
                prev.number_public_index.model(),
                new_e.number,
                eid,
            ),
            self.number_public_index.wf(),
        ensures
            forall|j: int|
                0 <= j < self.number_public_index.model().len() ==> occurs(
                    self.entry_numbers(),
                    #[trigger] self.number_public_index.key_model()[j],
                ),
            forall|j: int|
                0 <= j < self.number_public_index.model().len() ==> distinct(
                    #[trigger] self.number_public_index.model()[j].1,
                ),
            forall|j: int, k: int|
                #![trigger self.number_public_index.model()[j].1[k]]
                0 <= j < self.number_public_index.model().len() && 0 <= k
                    < self.number_public_index.model()[j].1.len()
                    ==> self.global_public_entry_index.spec_contains(
                    self.number_public_index.model()[j].1[k],
                ) && self.entries.spec_get(self.number_public_index.model()[j].1[k]).number
                    == self.number_public_index.model()[j].0,
            forall|k: int|
                #![trigger self.global_public_entry_index@[k]]
                0 <= k < self.global_public_entry_index@.len()
                    ==> self.number_public_index.spec_contains(
                    self.entries.spec_get(self.global_public_entry_index@[k]).number,
                ) && occurs(
                    self.number_public_index.spec_get(
                        self.entries.spec_get(self.global_public_entry_index@[k]).number,
                    ),
                    self.global_public_entry_index@[k],
                ),
    {
        let i = index_of(prev.entries.key_model(), eid);
        prev.entries.lemma_get_at(i);
        let keys = self.entries.key_model();
        let prev_keys = prev.entries.key_model();
        self.entries.lemma_models_agree();
        prev.entries.lemma_models_agree();
        assert(keys =~= prev_keys);
        assert(self.entry_numbers() =~= prev.entry_numbers());
        assert forall|k: Seq<char>| occurs(prev_keys, k) implies self.entries.spec_contains(k)
            && index_of(keys, k) == index_of(prev_keys, k) by {
            let q = index_of(prev_keys, k);
            assert(prev_keys[q] == k);
            assert(keys[q] == k);
            assert(occurs(keys, k));
            let q2 = index_of(keys, k);
            assert(keys[q2] == k);
            assert(q2 == q);
        }
        assert forall|k: Seq<char>| occurs(prev_keys, k) && k != eid implies self.entries.spec_get(
            k,
        ) == prev.entries.spec_get(k) by {
            let q = index_of(prev_keys, k);
            assert(q != i);
            assert(self.entries.model()[q] == prev.entries.model()[q]);
        }
        assert(self.entries.spec_get(eid) == new_e);
        let n = new_e.number;
        let nm = self.number_public_index.model();
        let prev_nm = prev.number_public_index.model();
        let prev_nm_keys = prev_nm.map_values(|p: (i32, Seq<Seq<char>>)| p.0);
        self.number_public_index.lemma_models_agree();
        prev.number_public_index.lemma_models_agree();
        assert(prev_nm_keys =~= prev.number_public_index.key_model());
        let pubs = self.global_public_entry_index@;
        let prev_pubs = prev.global_public_entry_index@;
        // no previous fan-out set holds the id, since it was not public
        assert forall|j: int, k: int|
            #![trigger prev_nm[j].1[k]]
            0 <= j < prev_nm.len() && 0 <= k < prev_nm[j].1.len() implies prev_nm[j].1[k]
            != eid by {
            assert(prev.global_public_entry_index.spec_contains(prev_nm[j].1[k]));
        }
        assert forall|k: int|
            0 <= k < prev_pubs.len() implies occurs(prev_keys, #[trigger] prev_pubs[k]) by {
            assert(prev.entries.spec_contains(prev_pubs[k]));
        }
        if occurs(prev_nm_keys, n) {
            let tn = index_of(prev_nm_keys, n);
            prev.number_public_index.lemma_get_at(tn);
            assert(nm =~~= prev_nm.update(tn, (n, prev_nm[tn].1.push(eid))));
            assert forall|j: int| 0 <= j < nm.len() implies occurs(
                self.entry_numbers(),
                #[trigger] self.number_public_index.key_model()[j],
            ) by {
                assert(self.number_public_index.key_model()[j] == prev_nm_keys[j]);
                assert(occurs(prev.entry_numbers(), prev.number_public_index.key_model()[j]));
            }
            assert forall|j: int| 0 <= j < nm.len() implies distinct(#[trigger] nm[j].1) by {
                if j == tn {
                    assert(nm[j].1 == prev_nm[tn].1.push(eid));
                    assert(distinct(prev_nm[tn].1));
                } else {
                    assert(nm[j].1 == prev_nm[j].1);
                    assert(distinct(prev_nm[j].1));
                }
            }
            assert forall|j: int, k: int|
                #![trigger self.number_public_index.model()[j].1[k]]
                0 <= j < nm.len() && 0 <= k < nm[j].1.len() implies self.global_public_entry_index.spec_contains(
                nm[j].1[k],
            ) && self.entries.spec_get(nm[j].1[k]).number == nm[j].0 by {
                if j == tn && k == nm[j].1.len() - 1 {
                    assert(nm[j].1[k] == eid);
                    assert(pubs[pubs.len() - 1] == eid);
                    assert(occurs(pubs, eid));
                } else {
                    assert(nm[j].1[k] == prev_nm[j].1[k]);
                    assert(prev.global_public_entry_index.spec_contains(prev_nm[j].1[k]));
                    let t = index_of(prev_pubs, prev_nm[j].1[k]);
                    assert(pubs[t] == prev_pubs[t]);
                    assert(occurs(pubs, prev_nm[j].1[k]));
                    assert(prev_nm[j].1[k] != eid);
                    assert(self.entries.spec_get(prev_nm[j].1[k]) == prev.entries.spec_get(
                        prev_nm[j].1[k],
                    ));
                    assert(prev.entries.spec_get(prev_nm[j].1[k]).number == prev_nm[j].0);
                }
            }
            assert forall|k: int|
                #![trigger self.global_public_entry_index@[k]]
                0 <= k < pubs.len() implies self.number_public_index.spec_contains(
                self.entries.spec_get(pubs[k]).number,
            ) && occurs(
                self.number_public_index.spec_get(self.entries.spec_get(pubs[k]).number),
                pubs[k],
            ) by {
                if k < prev_pubs.len() {
                    assert(pubs[k] == prev_pubs[k]);
                    assert(pubs[k] != eid);
                    let num = prev.entries.spec_get(pubs[k]).number;
                    assert(self.entries.spec_get(pubs[k]) == prev.entries.spec_get(pubs[k]));
                    assert(prev.number_public_index.spec_contains(num));
                    let jn = index_of(prev_nm_keys, num);
                    prev.number_public_index.lemma_get_at(jn);
                    assert(occurs(prev_nm[jn].1, pubs[k]));
                    let kk = index_of(prev_nm[jn].1, pubs[k]);
                    if jn == tn {
                        assert(nm[jn].1 == prev_nm[tn].1.push(eid));
                        assert(nm[jn].1[kk] == pubs[k]);
                        assert(occurs(nm[jn].1, pubs[k]));
                    } else {
                        assert(nm[jn].1 == prev_nm[jn].1);
                        assert(occurs(nm[jn].1, pubs[k]));
                    }
                    assert(self.number_public_index.key_model()[jn] == num);
                    self.number_public_index.lemma_get_at(jn);
                } else {
                    assert(pubs[k] == eid);
                    assert(self.entries.spec_get(eid).number == n);
                    assert(self.number_public_index.key_model()[tn] == n);
                    self.number_public_index.lemma_get_at(tn);
                    assert(nm[tn].1[nm[tn].1.len() - 1] == eid);
                    assert(occurs(nm[tn].1, eid));
                }
            }
        } else {
            assert(nm =~~= prev_nm.push((n, Seq::<Seq<char>>::empty().push(eid))));
            assert forall|j: int| 0 <= j < nm.len() implies occurs(
                self.entry_numbers(),
                #[trigger] self.number_public_index.key_model()[j],
            ) by {
                if j < prev_nm.len() {
                    assert(self.number_public_index.key_model()[j] == prev_nm_keys[j]);
                    assert(occurs(prev.entry_numbers(), prev.number_public_index.key_model()[j]));
                } else {
                    assert(self.number_public_index.key_model()[j] == n);
                    assert(self.entry_numbers()[i] == n);
                }
            }
            assert forall|j: int| 0 <= j < nm.len() implies distinct(#[trigger] nm[j].1) by {
                if j < prev_nm.len() {
                    assert(nm[j].1 == prev_nm[j].1);
                    assert(distinct(prev_nm[j].1));
                }
            }
            assert forall|j: int, k: int|
                #![trigger self.number_public_index.model()[j].1[k]]
                0 <= j < nm.len() && 0 <= k < nm[j].1.len() implies self.global_public_entry_index.spec_contains(
                nm[j].1[k],
            ) && self.entries.spec_get(nm[j].1[k]).number == nm[j].0 by {
                if j < prev_nm.len() {
                    assert(nm[j].1 == prev_nm[j].1);
                    assert(prev.global_public_entry_index.spec_contains(prev_nm[j].1[k]));
                    let t = index_of(prev_pubs, prev_nm[j].1[k]);
                    assert(pubs[t] == prev_pubs[t]);
                    assert(occurs(pubs, prev_nm[j].1[k]));
                    assert(prev_nm[j].1[k] != eid);
                    assert(self.entries.spec_get(prev_nm[j].1[k]) == prev.entries.spec_get(
                        prev_nm[j].1[k],
                    ));
                    assert(prev.entries.spec_get(prev_nm[j].1[k]).number == prev_nm[j].0);
                } else {
                    assert(nm[j].1[k] == eid);
                    assert(pubs[pubs.len() - 1] == eid);
                    assert(occurs(pubs, eid));
                    assert(self.entries.spec_get(eid).number == n);
                }
            }
            assert forall|k: int|
                #![trigger self.global_public_entry_index@[k]]
                0 <= k < pubs.len() implies self.number_public_index.spec_contains(
                self.entries.spec_get(pubs[k]).number,
            ) && occurs(
                self.number_public_index.spec_get(self.entries.spec_get(pubs[k]).number),
                pubs[k],
            ) by {
                if k < prev_pubs.len() {
                    assert(pubs[k] == prev_pubs[k]);
                    assert(pubs[k] != eid);
                    let num = prev.entries.spec_get(pubs[k]).number;
                    assert(self.entries.spec_get(pubs[k]) == prev.entries.spec_get(pubs[k]));
                    assert(prev.number_public_index.spec_contains(num));
                    let jn = index_of(prev_nm_keys, num);
                    prev.number_public_index.lemma_get_at(jn);
                    assert(occurs(prev_nm[jn].1, pubs[k]));
                    assert(nm[jn].1 == prev_nm[jn].1);
                    assert(self.number_public_index.key_model()[jn] == num);
                    self.number_public_index.lemma_get_at(jn);
                } else {
                    assert(pubs[k] == eid);
                    assert(self.entries.spec_get(eid).number == n);
                    assert(self.number_public_index.key_model()[nm.len() - 1] == n);
                    self.number_public_index.lemma_get_at(nm.len() - 1);
                    assert(nm[nm.len() - 1].1[0] == eid);
                    assert(occurs(nm[nm.len() - 1].1, eid));
                }
            }
        }
    }

    /// After a public-to-private transition of the last public entry, the
    /// per-number fan-out clauses of the invariant hold again.
    proof fn lemma_number_index_after_unpublish(
        &self,
        prev: BookmarkedNumbersManager,
        eid: Seq<char>,
        new_e: BookmarkedNumberEntryModel,
    )
        requires
            prev.wf(),
            prev.entries.spec_contains(eid),
            new_e.number == prev.entries.spec_get(eid).number,
            self.entries.model() == prev.entries.model().update(
                index_of(prev.entries.key_model(), eid),
                (eid, new_e),
            ),
            self.entries.wf(),
            prev.global_public_entry_index@.len() > 0,
            prev.global_public_entry_index@.last() == eid,
            self.global_public_entry_index@ == prev.global_public_entry_index@.drop_last(),
            self.number_public_index.model() == family_remove(
                prev.number_public_index.model(),
                new_e.number,
                eid,
            ),
            self.number_public_index.wf(),
        ensures
            forall|j: int|
                0 <= j < self.number_public_index.model().len() ==> occurs(
                    self.entry_numbers(),
                    #[trigger] self.number_public_index.key_model()[j],
                ),
            forall|j: int|
                0 <= j < self.number_public_index.model().len() ==> distinct(
                    #[trigger] self.number_public_index.model()[j].1,
                ),
            forall|j: int, k: int|
                #![trigger self.number_public_index.model()[j].1[k]]
                0 <= j < self.number_public_index.model().len() && 0 <= k
                    < self.number_public_index.model()[j].1.len()
                    ==> self.global_public_entry_index.spec_contains(
                    self.number_public_index.model()[j].1[k],
                ) && self.entries.spec_get(self.number_public_index.model()[j].1[k]).number
                    == self.number_public_index.model()[j].0,
            forall|k: int|
                #![trigger self.global_public_entry_index@[k]]
                0 <= k < self.global_public_entry_index@.len()
                    ==> self.number_public_index.spec_contains(
                    self.entries.spec_get(self.global_public_entry_index@[k]).number,
                ) && occurs(
                    self.number_public_index.spec_get(
                        self.entries.spec_get(self.global_public_entry_index@[k]).number,
                    ),
                    self.global_public_entry_index@[k],
                ),
    {
        let i = index_of(prev.entries.key_model(), eid);
        prev.entries.lemma_get_at(i);
        let keys = self.entries.key_model();
        let prev_keys = prev.entries.key_model();
        self.entries.lemma_models_agree();
        prev.entries.lemma_models_agree();
        assert(keys =~= prev_keys);
        assert(self.entry_numbers() =~= prev.entry_numbers());
        assert forall|k: Seq<char>| occurs(prev_keys, k) implies self.entries.spec_contains(k)
            && index_of(keys, k) == index_of(prev_keys, k) by {
            let q = index_of(prev_keys, k);
            assert(prev_keys[q] == k);
            assert(keys[q] == k);
            assert(occurs(keys, k));
            let q2 = index_of(keys, k);
            assert(keys[q2] == k);
            assert(q2 == q);
        }
        assert forall|k: Seq<char>| occurs(prev_keys, k) && k != eid implies self.entries.spec_get(
            k,
        ) == prev.entries.spec_get(k) by {
            let q = index_of(prev_keys, k);
            assert(q != i);
            assert(self.entries.model()[q] == prev.entries.model()[q]);
        }
        assert(self.entries.spec_get(eid) == new_e);
        let n = new_e.number;
        let nm = self.number_public_index.model();
        let prev_nm = prev.number_public_index.model();
        let prev_nm_keys = prev_nm.map_values(|p: (i32, Seq<Seq<char>>)| p.0);
        self.number_public_index.lemma_models_agree();
        prev.number_public_index.lemma_models_agree();
        assert(prev_nm_keys =~= prev.number_public_index.key_model());
        let pubs = self.global_public_entry_index@;
        let prev_pubs = prev.global_public_entry_index@;
        assert(occurs(prev_pubs, eid)) by {
            assert(prev_pubs[prev_pubs.len() - 1] == eid);
        }
        crate::state::ordered::lemma_swap_removed_props(prev_pubs, prev_pubs.len() - 1);
        assert(swap_removed(prev_pubs, prev_pubs.len() - 1) =~= prev_pubs.drop_last());
        assert forall|x: Seq<char>| occurs(pubs, x) implies occurs(prev_pubs, x) && x != eid by {
            assert(occurs(swap_removed(prev_pubs, prev_pubs.len() - 1), x));
        }
        assert forall|x: Seq<char>| occurs(prev_pubs, x) && x != eid implies occurs(pubs, x) by {
            assert(occurs(swap_removed(prev_pubs, prev_pubs.len() - 1), x));
        }
        // the fan-out set the id leaves, and the fact it sat only there
        assert(prev.number_public_index.spec_contains(n) && occurs(
            prev.number_public_index.spec_get(n),
            eid,
        )) by {
            assert(prev_pubs[prev_pubs.len() - 1] == eid);
            assert(prev.entries.spec_get(eid).number == n);
        }
        let tn = index_of(prev_nm_keys, n);
        prev.number_public_index.lemma_get_at(tn);
        let prior = prev_nm[tn].1;
        let pos = index_of(prior, eid);
        assert(occurs(prior, eid));
        assert(prior[pos] == eid);
        crate::state::ordered::lemma_swap_removed_props(prior, pos);
        assert(nm =~~= prev_nm.update(tn, (n, swap_removed(prior, pos))));
        assert forall|j: int| 0 <= j < nm.len() implies occurs(
            self.entry_numbers(),
            #[trigger] self.number_public_index.key_model()[j],
        ) by {
            assert(self.number_public_index.key_model()[j] == prev_nm_keys[j]);
            assert(occurs(prev.entry_numbers(), prev.number_public_index.key_model()[j]));
        }
        assert forall|j: int| 0 <= j < nm.len() implies distinct(#[trigger] nm[j].1) by {
            if j == tn {
                assert(nm[j].1 == swap_removed(prior, pos));
            } else {
                assert(nm[j].1 == prev_nm[j].1);
                assert(distinct(prev_nm[j].1));
            }
        }
        assert forall|j: int, k: int|
            #![trigger self.number_public_index.model()[j].1[k]]
            0 <= j < nm.len() && 0 <= k < nm[j].1.len() implies self.global_public_entry_index.spec_contains(
            nm[j].1[k],
        ) && self.entries.spec_get(nm[j].1[k]).number == nm[j].0 by {
            let x = nm[j].1[k];
            if j == tn {
                assert(occurs(swap_removed(prior, pos), x));
                assert(occurs(prior, x) && x != eid);
                let kk = index_of(prior, x);
                assert(prev_nm[j].1[kk] == x);
                assert(prev.global_public_entry_index.spec_contains(x));
                assert(prev.entries.spec_get(x).number == prev_nm[j].0);
            } else {
                assert(x == prev_nm[j].1[k]);
                assert(prev.global_public_entry_index.spec_contains(x));
                assert(prev.entries.spec_get(x).number == prev_nm[j].0);
                assert(x != eid) by {
                    if x == eid {
                        assert(prev.entries.spec_get(eid).number == prev_nm[j].0);
                        assert(prev_nm_keys[j] == n);
                        assert(prev_nm_keys[tn] == n);
                        assert(j == tn);
                    }
                }
            }
            assert(occurs(prev_pubs, x) && x != eid);
            assert(occurs(pubs, x));
            assert(occurs(prev_keys, x)) by {
                assert(prev.entries.spec_contains(x));
            }
            assert(self.entries.spec_get(x) == prev.entries.spec_get(x));
        }
        assert forall|k: int|
            #![trigger self.global_public_entry_index@[k]]
            0 <= k < pubs.len() implies self.number_public_index.spec_contains(
            self.entries.spec_get(pubs[k]).number,
        ) && occurs(
            self.number_public_index.spec_get(self.entries.spec_get(pubs[k]).number),
            pubs[k],
        ) by {
            let x = pubs[k];
            assert(occurs(pubs, x));
            assert(occurs(prev_pubs, x) && x != eid);
            let t = index_of(prev_pubs, x);
            assert(prev_pubs[t] == x);
            assert(occurs(prev_keys, x)) by {
                assert(prev.entries.spec_contains(x));
            }
            assert(self.entries.spec_get(x) == prev.entries.spec_get(x));
            let num = prev.entries.spec_get(x).number;
            assert(prev.number_public_index.spec_contains(num));
            assert(occurs(prev.number_public_index.spec_get(num), x));
            let jn = index_of(prev_nm_keys, num);
            prev.number_public_index.lemma_get_at(jn);
            if jn == tn {
                assert(occurs(prev_nm[tn].1, x));
                assert(x != eid);
                assert(occurs(swap_removed(prior, pos), x));
                assert(nm[tn].1 == swap_removed(prior, pos));
                assert(occurs(nm[tn].1, x));
            } else {
                assert(nm[jn].1 == prev_nm[jn].1);
                assert(occurs(nm[jn].1, x));
            }
            assert(self.number_public_index.key_model()[jn] == num);
            self.number_public_index.lemma_get_at(jn);
        }
    }

    /// After a creation, the invariant holds again.
    proof fn lemma_add_wf(
        &self,
        prev: BookmarkedNumbersManager,
        id: Seq<char>,
        owner: Seq<char>,
        e: BookmarkedNumberEntryModel,
    )
        requires
            prev.wf(),
            prev.next_id < u64::MAX,
            prev.entries.model().len() + 1 < u32::MAX,
            spec_decode_id(id) matches Some(p) && p.0 == prev.next_id,
            !prev.has_number(owner, e.number),
            e.owner_addr == owner,
            self.entries.model() == prev.entries.model().push((id, e)),
            self.entries.wf(),
            self.owner_entry_index.model() == family_add(
                prev.owner_entry_index.model(),
                owner,
                id,
            ),
            self.owner_entry_index.wf(),
            self.owner_number_index.model() == family_add(
                prev.owner_number_index.model(),
                owner,
                e.number,
            ),
            self.owner_number_index.wf(),
            e.marked_as_public_at is Some ==> self.global_public_entry_index@
                == prev.global_public_entry_index@.push(id) && self.number_public_index.model()
                == family_add(prev.number_public_index.model(), e.number, id),
            e.marked_as_public_at is None ==> self.global_public_entry_index
                == prev.global_public_entry_index && self.number_public_index
                == prev.number_public_index,
            self.global_public_entry_index.wf(),
            self.number_public_index.wf(),
            self.next_id == prev.next_id + 1,
        ensures
            self.wf(),
    {
        let m = self.entries.model();
        let keys = self.entries.key_model();
        let prev_keys = prev.entries.key_model();
        self.entries.lemma_models_agree();
        prev.entries.lemma_models_agree();
        assert(keys =~= prev_keys.push(id));
        assert(self.entry_numbers() =~= prev.entry_numbers().push(e.number));
        assert forall|i: int| 0 <= i < m.len() implies id_below(#[trigger] keys[i], self.next_id) by {
            if i < prev_keys.len() {
                assert(id_below(prev_keys[i], prev.next_id));
            }
        }
        assert forall|k: int| 0 <= k < prev_keys.len() implies prev_keys[k] != id by {
            assert(id_below(prev_keys[k], prev.next_id));
        }
        // the per-owner id sets
        let fam = family_add(prev.owner_entry_index.model(), owner, id);
        let prev_fam_keys = prev.owner_entry_index.model().map_values(
            |p: (Seq<char>, Seq<Seq<char>>)| p.0,
        );
        prev.owner_entry_index.lemma_models_agree();
        assert(prev_fam_keys =~= prev.owner_entry_index.key_model());
        assert forall|j: int|
            0 <= j < self.owner_entry_index.model().len() implies self.ids_ok(
            #[trigger] self.owner_entry_index.model()[j].1,
        ) by {
            if occurs(prev_fam_keys, owner) {
                let t = index_of(prev_fam_keys, owner);
                let prior = prev.owner_entry_index.model()[t].1;
                assert(prev.ids_ok(prior));
                assert forall|k: int| 0 <= k < prior.len() implies prior[k] != id by {
                    assert(prev.entries.spec_contains(prior[k]));
                    let q = index_of(prev_keys, prior[k]);
                    assert(id_below(prev_keys[q], prev.next_id));
                }
                assert(!occurs(prior, id));
                if j == t {
                    assert(fam[j].1 == prior.push(id));
                    assert forall|k: int|
                        0 <= k < fam[j].1.len() implies self.entries.spec_contains(
                        #[trigger] fam[j].1[k],
                    ) by {
                        if k < prior.len() {
                            assert(prev.entries.spec_contains(prior[k]));
                            let q = index_of(prev_keys, prior[k]);
                            assert(keys[q] == prior[k]);
                            assert(occurs(keys, prior[k]));
                        } else {
                            assert(fam[j].1[k] == id);
                            assert(keys[keys.len() - 1] == id);
                            assert(occurs(keys, id));
                        }
                    }
                } else {
                    assert(self.owner_entry_index.model()[j].1 == prev.owner_entry_index.model()[j].1);
                    assert(prev.ids_ok(prev.owner_entry_index.model()[j].1));
                    self.lemma_ids_still_ok(prev, prev.owner_entry_index.model()[j].1);
                }
            } else {
                if j < prev.owner_entry_index.model().len() {
                    assert(self.owner_entry_index.model()[j] == prev.owner_entry_index.model()[j]);
                    assert(prev.ids_ok(prev.owner_entry_index.model()[j].1));
                    self.lemma_ids_still_ok(prev, prev.owner_entry_index.model()[j].1);
                } else {
                    assert(fam[j].1 =~= Seq::<Seq<char>>::empty().push(id));
                    assert(keys[keys.len() - 1] == id);
                    assert(occurs(keys, id));
                }
            }
        }
        // the per-owner number sets
        let nfam = family_add(prev.owner_number_index.model(), owner, e.number);
        let prev_nfam_keys = prev.owner_number_index.model().map_values(
            |p: (Seq<char>, Seq<i32>)| p.0,
        );
        prev.owner_number_index.lemma_models_agree();
        assert(prev_nfam_keys =~= prev.owner_number_index.key_model());
        assert forall|j: int|
            0 <= j < self.owner_number_index.model().len() implies distinct(
            #[trigger] self.owner_number_index.model()[j].1,
        ) && self.owner_number_index.model()[j].1.len() <= self.entries.model().len() by {
            if occurs(prev_nfam_keys, owner) {
                let t = index_of(prev_nfam_keys, owner);
                prev.owner_number_index.lemma_get_at(t);
                let prior = prev.owner_number_index.model()[t].1;
                assert(distinct(prior) && prior.len() <= prev.entries.model().len());
                assert(!occurs(prior, e.number));
                if j == t {
                    assert(nfam[j].1 == prior.push(e.number));
                } else {
                    assert(nfam[j] == prev.owner_number_index.model()[j]);
                    assert(distinct(prev.owner_number_index.model()[j].1));
                }
            } else {
                if j < prev.owner_number_index.model().len() {
                    assert(nfam[j] == prev.owner_number_index.model()[j]);
                    assert(distinct(prev.owner_number_index.model()[j].1));
                } else {
                    assert(nfam[j].1 =~= Seq::<i32>::empty().push(e.number));
                }
            }
        }
        // the global public index
        self.lemma_ids_still_ok(prev, prev.global_public_entry_index@);
        let pubs = self.global_public_entry_index@;
        let prev_pubs = prev.global_public_entry_index@;
        assert forall|k: int| 0 <= k < prev_pubs.len() implies prev_pubs[k] != id by {
            assert(prev.entries.spec_contains(prev_pubs[k]));
            let q = index_of(prev_keys, prev_pubs[k]);
            assert(id_below(prev_keys[q], prev.next_id));
        }
        assert(self.ids_ok(pubs)) by {
            if e.marked_as_public_at is Some {
                assert(pubs == prev_pubs.push(id));
                assert forall|k: int| 0 <= k < pubs.len() implies self.entries.spec_contains(
                    #[trigger] pubs[k],
                ) by {
                    if k < prev_pubs.len() {
                        assert(prev.entries.spec_contains(prev_pubs[k]));
                        let q = index_of(prev_keys, prev_pubs[k]);
                        assert(keys[q] == prev_keys[q]);
                        assert(occurs(keys, prev_pubs[k]));
                    } else {
                        assert(pubs[k] == id);
                        assert(keys[keys.len() - 1] == id);
                        assert(occurs(keys, id));
                    }
                }
            }
        }
        // flag consistency
        assert forall|i: int|
            0 <= i < m.len() implies ((#[trigger] m[i].1.marked_as_public_at) is Some
            <==> self.global_public_entry_index.spec_contains(keys[i])) by {
            if i < prev.entries.model().len() {
                assert(m[i] == prev.entries.model()[i]);
                assert(prev.entries.model()[i].1.marked_as_public_at is Some
                    <==> prev.global_public_entry_index.spec_contains(prev_keys[i]));
                assert(keys[i] == prev_keys[i]);
                if e.marked_as_public_at is Some {
                    assert(self.global_public_entry_index.spec_contains(prev_keys[i]) <==> occurs(
                        prev_pubs.push(id),
                        prev_keys[i],
                    ));
                    assert(occurs(prev_pubs.push(id), prev_keys[i]) <==> occurs(
                        prev_pubs,
                        prev_keys[i],
                    )) by {
                        if occurs(prev_pubs.push(id), prev_keys[i]) {
                            let q = index_of(prev_pubs.push(id), prev_keys[i]);
                            if q < prev_pubs.len() {
                                assert(occurs(prev_pubs, prev_keys[i]));
                            } else {
                                assert(prev_keys[i] == id);
                                assert(id_below(prev_keys[i], prev.next_id));
                                assert(false);
                            }
                        } else {
                            if occurs(prev_pubs, prev_keys[i]) {
                                let q = index_of(prev_pubs, prev_keys[i]);
                                assert(prev_pubs.push(id)[q] == prev_keys[i]);
                            }
                        }
                    }
                }
            } else {
                assert(keys[i] == id);
                if m[i].1.marked_as_public_at is Some {
                    assert(pubs[pubs.len() - 1] == id);
                } else {
                    assert(!prev.global_public_entry_index.spec_contains(id));
                }
            }
        }
        // the per-number fan-out
        self.lemma_number_index_after_add(prev, id, e);
    }

    /// Ids that were keys of the previous map are keys of the extended map.
    proof fn lemma_ids_still_ok(
        &self,
        prev: BookmarkedNumbersManager,
        ids: Seq<Seq<char>>,
    )
        requires
            prev.ids_ok(ids),
            prev.entries.wf(),
            self.entries.key_model() == prev.entries.key_model().push(
                self.entries.key_model().last(),
            ),
        ensures
            self.ids_ok(ids),
    {
        let keys = self.entries.key_model();
        let prev_keys = prev.entries.key_model();
        assert forall|k: int| 0 <= k < ids.len() implies self.entries.spec_contains(
            #[trigger] ids[k],
        ) by {
            assert(prev.entries.spec_contains(ids[k]));
            let q = index_of(prev_keys, ids[k]);
            assert(keys[q] == prev_keys[q]);
            assert(occurs(keys, ids[k]));
        }
    }

    /// After a creation, the per-number fan-out clauses of the invariant hold
    /// again.
    proof fn lemma_number_index_after_add(
        &self,
        prev: BookmarkedNumbersManager,
        id: Seq<char>,
        e: BookmarkedNumberEntryModel,
    )
        requires
            prev.wf(),
            prev.entries.model().len() + 1 < u32::MAX,
            spec_decode_id(id) matches Some(p) && p.0 == prev.next_id,
            self.entries.model() == prev.entries.model().push((id, e)),
            self.entries.wf(),
            e.marked_as_public_at is Some ==> self.global_public_entry_index@
                == prev.global_public_entry_index@.push(id) && self.number_public_index.model()
                == family_add(prev.number_public_index.model(), e.number, id),
            e.marked_as_public_at is None ==> self.global_public_entry_index
                == prev.global_public_entry_index && self.number_public_index
                == prev.number_public_index,
            self.number_public_index.wf(),
            self.ids_ok(self.global_public_entry_index@),
        ensures
            forall|j: int|
                0 <= j < self.number_public_index.model().len() ==> occurs(
                    self.entry_numbers(),
                    #[trigger] self.number_public_index.key_model()[j],
                ),
            forall|j: int|
                0 <= j < self.number_public_index.model().len() ==> distinct(
                    #[trigger] self.number_public_index.model()[j].1,
                ),
            forall|j: int, k: int|
                #![trigger self.number_public_index.model()[j].1[k]]
                0 <= j < self.number_public_index.model().len() && 0 <= k
                    < self.number_public_index.model()[j].1.len()
                    ==> self.global_public_entry_index.spec_contains(
                    self.number_public_index.model()[j].1[k],
                ) && self.entries.spec_get(self.number_public_index.model()[j].1[k]).number
                    == self.number_public_index.model()[j].0,
            forall|k: int|
                #![trigger self.global_public_entry_index@[k]]
                0 <= k < self.global_public_entry_index@.len()
                    ==> self.number_public_index.spec_contains(
                    self.entries.spec_get(self.global_public_entry_index@[k]).number,
                ) && occurs(
                    self.number_public_index.spec_get(
                        self.entries.spec_get(self.global_public_entry_index@[k]).number,
                    ),
                    self.global_public_entry_index@[k],
                ),
    {
        let keys = self.entries.key_model();
        let prev_keys = prev.entries.key_model();
        self.entries.lemma_models_agree();
        prev.entries.lemma_models_agree();
        assert(keys =~= prev_keys.push(id));
        assert(self.entry_numbers() =~= prev.entry_numbers().push(e.number));
        self.number_public_index.lemma_models_agree();
        prev.number_public_index.lemma_models_agree();
        let nm = self.number_public_index.model();
        let prev_nm = prev.number_public_index.model();
        let prev_nm_keys = prev_nm.map_values(|p: (i32, Seq<Seq<char>>)| p.0);
        assert(prev_nm_keys =~= prev.number_public_index.key_model());
        let pubs = self.global_public_entry_index@;
        let prev_pubs = prev.global_public_entry_index@;
        assert forall|k: int| 0 <= k < prev_keys.len() implies prev_keys[k] != id by {
            assert(id_below(prev_keys[k], prev.next_id));
        }
        // old keys still resolve to their old entries
        assert forall|k: int|
            0 <= k < prev_pubs.len() implies self.entries.spec_get(#[trigger] prev_pubs[k])
            == prev.entries.spec_get(prev_pubs[k]) && occurs(prev_keys, prev_pubs[k]) by {
            assert(prev.entries.spec_contains(prev_pubs[k]));
            self.entries.lemma_get_after_extend(prev.entries, prev_pubs[k]);
        }
        assert(self.entries.spec_contains(id) && self.entries.spec_get(id) == e) by {
            self.entries.lemma_get_at(keys.len() - 1);
        }
        if e.marked_as_public_at is None {
            assert forall|j: int| 0 <= j < nm.len() implies occurs(
                self.entry_numbers(),
                #[trigger] self.number_public_index.key_model()[j],
            ) by {
                assert(occurs(prev.entry_numbers(), prev.number_public_index.key_model()[j]));
                let q = index_of(prev.entry_numbers(), prev.number_public_index.key_model()[j]);
                assert(self.entry_numbers()[q] == prev.entry_numbers()[q]);
            }
            assert forall|j: int, k: int|
                #![trigger self.number_public_index.model()[j].1[k]]
                0 <= j < nm.len() && 0 <= k < nm[j].1.len() implies self.global_public_entry_index.spec_contains(
                nm[j].1[k],
            ) && self.entries.spec_get(nm[j].1[k]).number == nm[j].0 by {
                assert(prev.global_public_entry_index.spec_contains(prev_nm[j].1[k]));
                assert(prev.entries.spec_get(prev_nm[j].1[k]).number == prev_nm[j].0);
                let t = index_of(prev_pubs, prev_nm[j].1[k]);
                assert(prev_pubs[t] == prev_nm[j].1[k]);
                assert(self.entries.spec_get(prev_pubs[t]) == prev.entries.spec_get(prev_pubs[t]));
            }
            assert forall|k: int|
                #![trigger self.global_public_entry_index@[k]]
                0 <= k < pubs.len() implies self.number_public_index.spec_contains(
                self.entries.spec_get(pubs[k]).number,
            ) && occurs(
                self.number_public_index.spec_get(self.entries.spec_get(pubs[k]).number),
                pubs[k],
            ) by {
                assert(self.entries.spec_get(pubs[k]) == prev.entries.spec_get(pubs[k]));
                assert(prev.number_public_index.spec_contains(prev.entries.spec_get(pubs[k]).number));
                assert(occurs(
                    prev.number_public_index.spec_get(prev.entries.spec_get(pubs[k]).number),
                    pubs[k],
                ));
            }
        } else {
            let n = e.number;
            let nfam = family_add(prev_nm, n, id);
            assert(nm == nfam);
            // ids in any fan-out set of the previous state are old public ids
            assert forall|j: int, k: int|
                #![trigger prev_nm[j].1[k]]
                0 <= j < prev_nm.len() && 0 <= k < prev_nm[j].1.len() implies prev_nm[j].1[k]
                != id by {
                assert(prev.global_public_entry_index.spec_contains(prev_nm[j].1[k]));
                let t = index_of(prev_pubs, prev_nm[j].1[k]);
                assert(occurs(prev_keys, prev_pubs[t]));
                let q = index_of(prev_keys, prev_pubs[t]);
                assert(prev_keys[q] != id);
            }
            if occurs(prev_nm_keys, n) {
                let tn = index_of(prev_nm_keys, n);
                prev.number_public_index.lemma_get_at(tn);
                assert(nm =~~= prev_nm.update(tn, (n, prev_nm[tn].1.push(id))));
                assert(nm.len() == prev_nm.len());
                assert forall|j: int| 0 <= j < nm.len() implies occurs(
                    self.entry_numbers(),
                    #[trigger] self.number_public_index.key_model()[j],
                ) by {
                    assert(self.number_public_index.key_model()[j] == prev_nm_keys[j]);
                    assert(occurs(prev.entry_numbers(), prev.number_public_index.key_model()[j]));
                    let q = index_of(prev.entry_numbers(), prev.number_public_index.key_model()[j]);
                    assert(self.entry_numbers()[q] == prev.entry_numbers()[q]);
                }
                assert forall|j: int| 0 <= j < nm.len() implies distinct(#[trigger] nm[j].1) by {
                    if j == tn {
                        assert(nm[j].1 == prev_nm[tn].1.push(id));
                        assert(distinct(prev_nm[tn].1));
                    } else {
                        assert(nm[j].1 == prev_nm[j].1);
                        assert(distinct(prev_nm[j].1));
                    }
                }
                assert forall|j: int, k: int|
                    #![trigger self.number_public_index.model()[j].1[k]]
                    0 <= j < nm.len() && 0 <= k < nm[j].1.len() implies self.global_public_entry_index.spec_contains(
                    nm[j].1[k],
                ) && self.entries.spec_get(nm[j].1[k]).number == nm[j].0 by {
                    if j == tn && k == nm[j].1.len() - 1 {
                        assert(nm[j].1[k] == id);
                        assert(pubs[pubs.len() - 1] == id);
                        assert(occurs(pubs, id));
                        assert(self.entries.spec_get(id).number == n);
                    } else {
                        assert(nm[j].1[k] == prev_nm[j].1[k]);
                        assert(prev.global_public_entry_index.spec_contains(prev_nm[j].1[k]));
                        let t = index_of(prev_pubs, prev_nm[j].1[k]);
                        assert(pubs[t] == prev_pubs[t]);
                        assert(occurs(pubs, prev_nm[j].1[k]));
                        assert(self.entries.spec_get(prev_pubs[t]) == prev.entries.spec_get(
                            prev_pubs[t],
                        ));
                        assert(prev.entries.spec_get(prev_nm[j].1[k]).number == prev_nm[j].0);
                    }
                }
                assert forall|k: int|
                    #![trigger self.global_public_entry_index@[k]]
                    0 <= k < pubs.len() implies self.number_public_index.spec_contains(
                    self.entries.spec_get(pubs[k]).number,
                ) && occurs(
                    self.number_public_index.spec_get(self.entries.spec_get(pubs[k]).number),
                    pubs[k],
                ) by {
                    if k < prev_pubs.len() {
                        let num = prev.entries.spec_get(pubs[k]).number;
                        assert(self.entries.spec_get(pubs[k]) == prev.entries.spec_get(pubs[k]));
                        assert(prev.number_public_index.spec_contains(num));
                        let jn = index_of(prev_nm_keys, num);
                        prev.number_public_index.lemma_get_at(jn);
                        assert(occurs(prev_nm[jn].1, pubs[k]));
                        let kk = index_of(prev_nm[jn].1, pubs[k]);
                        if jn == tn {
                            assert(nm[jn].1 == prev_nm[tn].1.push(id));
                            assert(nm[jn].1[kk] == pubs[k]);
                            assert(occurs(nm[jn].1, pubs[k]));
                        } else {
                            assert(nm[jn].1 == prev_nm[jn].1);
                            assert(occurs(nm[jn].1, pubs[k]));
                        }
                        assert(self.number_public_index.key_model()[jn] == num);
                        self.number_public_index.lemma_get_at(jn);
                    } else {
                        assert(pubs[k] == id);
                        assert(self.entries.spec_get(id).number == n);
                        assert(self.number_public_index.key_model()[tn] == n);
                        self.number_public_index.lemma_get_at(tn);
                        assert(nm[tn].1[nm[tn].1.len() - 1] == id);
                        assert(occurs(nm[tn].1, id));
                    }
                }
            } else {
                assert(nm =~~= prev_nm.push((n, Seq::<Seq<char>>::empty().push(id))));
                assert(nm.len() == prev_nm.len() + 1);
                assert forall|j: int| 0 <= j < nm.len() implies occurs(
                    self.entry_numbers(),
                    #[trigger] self.number_public_index.key_model()[j],
                ) by {
                    if j < prev_nm.len() {
                        assert(self.number_public_index.key_model()[j] == prev_nm_keys[j]);
                        assert(occurs(
                            prev.entry_numbers(),
                            prev.number_public_index.key_model()[j],
                        ));
                        let q = index_of(
                            prev.entry_numbers(),
                            prev.number_public_index.key_model()[j],
                        );
                        assert(self.entry_numbers()[q] == prev.entry_numbers()[q]);
                    } else {
                        assert(self.number_public_index.key_model()[j] == n);
                        assert(self.entry_numbers()[self.entry_numbers().len() - 1] == n);
                    }
                }
                assert forall|j: int| 0 <= j < nm.len() implies distinct(#[trigger] nm[j].1) by {
                    if j < prev_nm.len() {
                        assert(nm[j].1 == prev_nm[j].1);
                        assert(distinct(prev_nm[j].1));
                    }
                }
                assert forall|j: int, k: int|
                    #![trigger self.number_public_index.model()[j].1[k]]
                    0 <= j < nm.len() && 0 <= k < nm[j].1.len() implies self.global_public_entry_index.spec_contains(
                    nm[j].1[k],
                ) && self.entries.spec_get(nm[j].1[k]).number == nm[j].0 by {
                    if j < prev_nm.len() {
                        assert(nm[j].1 == prev_nm[j].1);
                        assert(prev.global_public_entry_index.spec_contains(prev_nm[j].1[k]));
                        let t = index_of(prev_pubs, prev_nm[j].1[k]);
                        assert(pubs[t] == prev_pubs[t]);
                        assert(occurs(pubs, prev_nm[j].1[k]));
                        assert(self.entries.spec_get(prev_pubs[t]) == prev.entries.spec_get(
                            prev_pubs[t],
                        ));
                        assert(prev.entries.spec_get(prev_nm[j].1[k]).number == prev_nm[j].0);
                    } else {
                        assert(nm[j].1[k] == id);
                        assert(pubs[pubs.len() - 1] == id);
                        assert(occurs(pubs, id));
                        assert(self.entries.spec_get(id).number == n);
                    }
                }
                assert forall|k: int|
                    #![trigger self.global_public_entry_index@[k]]
                    0 <= k < pubs.len() implies self.number_public_index.spec_contains(
                    self.entries.spec_get(pubs[k]).number,
                ) && occurs(
                    self.number_public_index.spec_get(self.entries.spec_get(pubs[k]).number),
                    pubs[k],
                ) by {
                    if k < prev_pubs.len() {
                        let num = prev.entries.spec_get(pubs[k]).number;
                        assert(self.entries.spec_get(pubs[k]) == prev.entries.spec_get(pubs[k]));
                        assert(prev.number_public_index.spec_contains(num));
                        let jn = index_of(prev_nm_keys, num);
                        prev.number_public_index.lemma_get_at(jn);
                        assert(occurs(prev_nm[jn].1, pubs[k]));
                        assert(nm[jn].1 == prev_nm[jn].1);
                        assert(self.number_public_index.key_model()[jn] == num);
                        self.number_public_index.lemma_get_at(jn);
                    } else {
                        assert(pubs[k] == id);
                        assert(self.entries.spec_get(id).number == n);
                        assert(self.number_public_index.key_model()[nm.len() - 1] == n);
                        self.number_public_index.lemma_get_at(nm.len() - 1);
                        assert(nm[nm.len() - 1].1[0] == id);
                        assert(occurs(nm[nm.len() - 1].1, id));
                    }
                }
            }
        }
    }
}

} // verus!
