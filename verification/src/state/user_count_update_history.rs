//! The append-only audit log of counter changes.
//!
//! Every increment appends one entry, keyed by a generated opaque id and
//! indexed three ways: by global insertion order (the primary map itself), by
//! user, and — for entries flagged public — by a public-subset index. Entries
//! are never changed or removed.

use vstd::prelude::*;

use crate::errors::ContractError;
use crate::state::ids::{external_id, id_below, lemma_external_id_round_trip, spec_decode_id, spec_external_id};
use crate::state::ordered::{family_add, occurs, OrderedMap, StringSet};
use crate::state::utils::{
    keymap_reverse_paging, keyset_reverse_paging, lemma_page_members, lemma_reverse_members,
    page_in_bounds, page_of, read_order,
};
use crate::time::Timestamp;

verus! {

/// One recorded counter change.
#[derive(Debug, PartialEq, Eq)]
pub struct UserCountUpdateHistoryEntry {
    pub user_addr: String,
    pub count_change: i32,
    pub created_at: Timestamp,
    pub marked_as_public_at: Option<Timestamp>,
}

/// The abstract value of an entry, with the address as a character sequence.
pub struct UserCountUpdateHistoryEntryModel {
    pub user_addr: Seq<char>,
    pub count_change: i32,
    pub created_at: Timestamp,
    pub marked_as_public_at: Option<Timestamp>,
}

impl View for UserCountUpdateHistoryEntry {
    type V = UserCountUpdateHistoryEntryModel;

    open spec fn view(&self) -> UserCountUpdateHistoryEntryModel {
        UserCountUpdateHistoryEntryModel {
            user_addr: self.user_addr@,
            count_change: self.count_change,
            created_at: self.created_at,
            marked_as_public_at: self.marked_as_public_at,
        }
    }
}

impl Clone for UserCountUpdateHistoryEntry {
    /// A copy equal to the original.
    fn clone(&self) -> (res: Self)
        ensures
            res == *self,
    {
        UserCountUpdateHistoryEntry {
            user_addr: self.user_addr.clone(),
            count_change: self.count_change,
            created_at: self.created_at,
            marked_as_public_at: self.marked_as_public_at,
        }
    }
}

/// The audit log with its indexes.
pub struct UserCountUpdateHistoryManager {
    /// The primary map, in global insertion order.
    pub entries: OrderedMap<UserCountUpdateHistoryEntry>,
    /// Per user, the ids of that user's entries in insertion order.
    pub user_index: OrderedMap<StringSet>,
    /// The ids of the public entries, in insertion order.
    pub public_index: StringSet,
    /// The sequence: the next id to hand out.
    pub next_id: u64,
}

impl UserCountUpdateHistoryManager {
    /// A set of ids is well-formed against the primary map: distinct, and
    /// every id is a key.
    pub open spec fn ids_ok(&self, ids: Seq<Seq<char>>) -> bool {
        &&& crate::state::ordered::distinct(ids)
        &&& forall|k: int| 0 <= k < ids.len() ==> self.entries.spec_contains(#[trigger] ids[k])
    }

    /// The manager's invariant: every key is a generated id below the
    /// sequence, the indexes hold only keys, and an entry is flagged public
    /// exactly when the public index holds its id.
    pub open spec fn wf(&self) -> bool {
        &&& self.entries.wf()
        &&& self.entries.model().len() < u32::MAX
        &&& 1 <= self.next_id
        &&& forall|i: int|
            0 <= i < self.entries.model().len() ==> id_below(
                #[trigger] self.entries.key_model()[i],
                self.next_id,
            )
        &&& self.user_index.wf()
        &&& self.user_index.model().len() <= self.entries.model().len()
        &&& forall|j: int|
            0 <= j < self.user_index.model().len() ==> self.ids_ok(
                #[trigger] self.user_index.model()[j].1,
            )
        &&& self.public_index.wf()
        &&& self.ids_ok(self.public_index@)
        &&& forall|i: int|
            0 <= i < self.entries.model().len() ==> ((#[trigger] self.entries.model()[i].1.marked_as_public_at)
                is Some <==> self.public_index.spec_contains(self.entries.key_model()[i]))
    }

    /// The ids of one user's entries: the user's index set, or empty for a
    /// user never seen.
    pub open spec fn user_ids(&self, user_addr: Seq<char>) -> Seq<Seq<char>> {
        if self.user_index.spec_contains(user_addr) {
            self.user_index.spec_get(user_addr)
        } else {
            Seq::<Seq<char>>::empty()
        }
    }

    /// An empty log whose sequence starts at one.
    pub fn new() -> (r: UserCountUpdateHistoryManager)
        ensures
            r.wf(),
            r.entries.model() == Seq::<(Seq<char>, UserCountUpdateHistoryEntryModel)>::empty(),
            r.user_index.model() == Seq::<(Seq<char>, Seq<Seq<char>>)>::empty(),
            r.public_index@ == Seq::<Seq<char>>::empty(),
            r.next_id == 1,
    {
        UserCountUpdateHistoryManager {
            entries: OrderedMap::new(),
            user_index: OrderedMap::new(),
            public_index: StringSet::new(),
            next_id: 1,
        }
    }

    /// Hands out the next sequence number and advances the sequence.
    fn get_next_id_u64_and_advance_sequence(&mut self) -> (r: u64)
        requires
            old(self).next_id < u64::MAX,
        ensures
            r == old(self).next_id,
            final(self).next_id == old(self).next_id + 1,
            final(self).entries == old(self).entries,
            final(self).user_index == old(self).user_index,
            final(self).public_index == old(self).public_index,
    {
        let next_id = self.next_id;
        self.next_id = next_id + 1;
        next_id
    }

    /// Appends one entry under a fresh generated id, indexes it by its user,
    /// and — if it is flagged public — by the public-subset index.
    pub fn add_entry(&mut self, now: Timestamp, history_entry: UserCountUpdateHistoryEntry) -> (r:
        Result<(), ContractError>)
        requires
            old(self).wf(),
            old(self).next_id < u64::MAX,
            old(self).entries.model().len() + 1 < u32::MAX,
        ensures
            r == Ok::<(), ContractError>(()),
            final(self).wf(),
            final(self).entries.model() == old(self).entries.model().push(
                (spec_external_id(old(self).next_id, now.nanos), history_entry@),
            ),
            final(self).user_index.model() == family_add(
                old(self).user_index.model(),
                history_entry.user_addr@,
                spec_external_id(old(self).next_id, now.nanos),
            ),
            final(self).public_index@ == if history_entry.marked_as_public_at is Some {
                old(self).public_index@.push(spec_external_id(old(self).next_id, now.nanos))
            } else {
                old(self).public_index@
            },
            final(self).next_id == old(self).next_id + 1,
    {
        let id_u64 = self.get_next_id_u64_and_advance_sequence();
        let next_sqid = external_id(id_u64, now);
        let ghost prev = *old(self);
        let ghost e = history_entry@;
        proof {
            lemma_external_id_round_trip(id_u64, now.nanos);
            if prev.entries.spec_contains(next_sqid@) {
                let q = crate::state::ordered::index_of(prev.entries.key_model(), next_sqid@);
                assert(id_below(prev.entries.key_model()[q], prev.next_id));
                assert(false);
            }
            if prev.public_index.spec_contains(next_sqid@) {
                let q = crate::state::ordered::index_of(prev.public_index@, next_sqid@);
                assert(prev.entries.spec_contains(prev.public_index@[q]));
                assert(false);
            }
        }
        let user_addr = history_entry.user_addr.clone();
        let make_public = history_entry.marked_as_public_at.is_some();
        self.entries.insert(&next_sqid, history_entry);
        let mut user_set = match self.user_index.get(&user_addr) {
            Some(s) => s.clone(),
            None => StringSet::new(),
        };
        proof {
            if prev.user_index.spec_contains(user_addr@) {
                let j = crate::state::ordered::index_of(prev.user_index.key_model(), user_addr@);
                prev.user_index.lemma_get_at(j);
                assert(prev.ids_ok(prev.user_index.model()[j].1));
                assert(user_set@ == prev.user_index.model()[j].1);
                assert forall|k: int| 0 <= k < user_set@.len() implies occurs(
                    prev.entries.key_model(),
                    #[trigger] user_set@[k],
                ) by {
                    assert(prev.entries.spec_contains(user_set@[k]));
                }
                crate::state::ordered::lemma_distinct_contained_len(
                    user_set@,
                    prev.entries.key_model(),
                );
                prev.entries.lemma_models_agree();
                assert(user_set.wf());
                if user_set.spec_contains(next_sqid@) {
                    let q = crate::state::ordered::index_of(user_set@, next_sqid@);
                    assert(prev.entries.spec_contains(user_set@[q]));
                    assert(false);
                }
            }
        }
        let ghost prev_set = user_set@;
        user_set.insert(&next_sqid);
        self.user_index.insert(&user_addr, user_set);
        proof {
            let fam = family_add(prev.user_index.model(), user_addr@, next_sqid@);
            let prev_fam_keys = prev.user_index.model().map_values(
                |p: (Seq<char>, Seq<Seq<char>>)| p.0,
            );
            prev.user_index.lemma_models_agree();
            assert(prev_fam_keys =~= prev.user_index.key_model());
            if prev.user_index.spec_contains(user_addr@) {
                let j = crate::state::ordered::index_of(prev.user_index.key_model(), user_addr@);
                assert(crate::state::ordered::index_of(prev_fam_keys, user_addr@) == j);
                assert(self.user_index.model() =~~= fam);
            } else {
                assert(prev_set =~= Seq::<Seq<char>>::empty());
                assert(self.user_index.model() =~~= fam);
            }
        }
        if make_public {
            proof {
                assert(prev.ids_ok(prev.public_index@));
                assert forall|k: int| 0 <= k < prev.public_index@.len() implies occurs(
                    prev.entries.key_model(),
                    #[trigger] prev.public_index@[k],
                ) by {
                    assert(prev.entries.spec_contains(prev.public_index@[k]));
                }
                crate::state::ordered::lemma_distinct_contained_len(
                    prev.public_index@,
                    prev.entries.key_model(),
                );
                prev.entries.lemma_models_agree();
            }
            self.public_index.insert(&next_sqid);
        }
        proof {
            self.lemma_add_entry_wf(prev, next_sqid@, user_addr@, e);
        }
        Ok(())
    }

    /// Resolves each id of `ids` against the primary map, in order.
    fn resolve_entries(&self, ids: &Vec<String>) -> (r: Vec<UserCountUpdateHistoryEntry>)
        requires
            self.entries.wf(),
            forall|k: int|
                0 <= k < ids@.len() ==> self.entries.spec_contains(#[trigger] ids@[k]@),
        ensures
            r@.len() == ids@.len(),
            forall|k: int|
                0 <= k < ids@.len() ==> (#[trigger] r@[k])@ == self.entries.spec_get(ids@[k]@),
    {
        let mut out: Vec<UserCountUpdateHistoryEntry> = Vec::new();
        let mut i: usize = 0;
        while i < ids.len()
            invariant
                i <= ids@.len(),
                out@.len() == i,
                self.entries.wf(),
                forall|k: int|
                    0 <= k < ids@.len() ==> self.entries.spec_contains(#[trigger] ids@[k]@),
                forall|k: int|
                    0 <= k < i ==> (#[trigger] out@[k])@ == self.entries.spec_get(ids@[k]@),
            decreases ids@.len() - i,
        {
            let entry = self.entries.get(&ids[i]).unwrap();
            out.push(entry.clone());
            i = i + 1;
        }
        out
    }

    /// One page of the whole log, in either direction.
    pub fn get_global_entries(
        &self,
        page_zero_based: u32,
        page_size: u32,
        reverse_order: bool,
    ) -> (r: Result<Vec<UserCountUpdateHistoryEntry>, ContractError>)
        requires
            self.wf(),
        ensures
            r is Ok <==> page_in_bounds(self.entries.model(), page_zero_based, page_size),
            r is Err ==> r == Err::<Vec<UserCountUpdateHistoryEntry>, ContractError>(
                ContractError::OutOfBounds,
            ),
            r matches Ok(v) ==> v@.map_values(|e: UserCountUpdateHistoryEntry| e@) == page_of(
                read_order(self.entries.key_model(), reverse_order),
                page_zero_based,
                page_size,
            ).map_values(|id: Seq<char>| self.entries.spec_get(id)),
    {
        proof {
            self.entries.lemma_models_agree();
        }
        let ids = if reverse_order {
            match keymap_reverse_paging(&self.entries, page_zero_based, page_size) {
                Ok(v) => v,
                Err(e) => {
                    return Err(e);
                },
            }
        } else {
            match self.entries.paging_keys(page_zero_based, page_size) {
                Ok(v) => v,
                Err(e) => {
                    return Err(e);
                },
            }
        };
        proof {
            let src = read_order(self.entries.key_model(), reverse_order);
            lemma_page_members(src, page_zero_based, page_size);
            lemma_reverse_members(self.entries.key_model());
            assert forall|k: int| 0 <= k < ids@.len() implies self.entries.spec_contains(
                #[trigger] ids@[k]@,
            ) by {
                assert(ids@[k]@ == page_of(src, page_zero_based, page_size)[k]);
                assert(occurs(src, ids@[k]@));
                if reverse_order {
                    let q = crate::state::ordered::index_of(src, ids@[k]@);
                    assert(occurs(self.entries.key_model(), src[q]));
                }
            }
        }
        let out = self.resolve_entries(&ids);
        proof {
            let src = read_order(self.entries.key_model(), reverse_order);
            assert(out@.map_values(|e: UserCountUpdateHistoryEntry| e@) =~= page_of(
                src,
                page_zero_based,
                page_size,
            ).map_values(|id: Seq<char>| self.entries.spec_get(id)));
        }
        Ok(out)
    }

    /// How many entries the whole log holds.
    pub fn get_global_entries_total_count(&self) -> (r: u32)
        requires
            self.wf(),
        ensures
            r == self.entries.model().len(),
    {
        self.entries.get_len()
    }

    /// One page of one user's entries, in either direction.
    pub fn get_user_entries(
        &self,
        user_addr: String,
        page_zero_based: u32,
        page_size: u32,
        reverse_order: bool,
    ) -> (r: Result<Vec<UserCountUpdateHistoryEntry>, ContractError>)
        requires
            self.wf(),
        ensures
            r is Ok <==> page_in_bounds(self.user_ids(user_addr@), page_zero_based, page_size),
            r is Err ==> r == Err::<Vec<UserCountUpdateHistoryEntry>, ContractError>(
                ContractError::OutOfBounds,
            ),
            r matches Ok(v) ==> v@.map_values(|e: UserCountUpdateHistoryEntry| e@) == page_of(
                read_order(self.user_ids(user_addr@), reverse_order),
                page_zero_based,
                page_size,
            ).map_values(|id: Seq<char>| self.entries.spec_get(id)),
    {
        let set = match self.user_index.get(&user_addr) {
            Some(s) => s,
            None => {
                let out: Vec<UserCountUpdateHistoryEntry> = Vec::new();
                proof {
                    assert(out@.map_values(|e: UserCountUpdateHistoryEntry| e@) =~= page_of(
                        read_order(self.user_ids(user_addr@), reverse_order),
                        page_zero_based,
                        page_size,
                    ).map_values(|id: Seq<char>| self.entries.spec_get(id)));
                }
                return Ok(out);
            },
        };
        proof {
            let j = crate::state::ordered::index_of(self.user_index.key_model(), user_addr@);
            self.user_index.lemma_get_at(j);
            assert(self.ids_ok(self.user_index.model()[j].1));
            assert(set@ == self.user_ids(user_addr@));
            assert(set.wf()) by {
                assert forall|k: int| 0 <= k < set@.len() implies occurs(
                    self.entries.key_model(),
                    #[trigger] set@[k],
                ) by {
                    assert(self.entries.spec_contains(set@[k]));
                }
                crate::state::ordered::lemma_distinct_contained_len(
                    set@,
                    self.entries.key_model(),
                );
                self.entries.lemma_models_agree();
            }
        }
        let ids = if reverse_order {
            match keyset_reverse_paging(set, page_zero_based, page_size) {
                Ok(v) => v,
                Err(e) => {
                    return Err(e);
                },
            }
        } else {
            match set.paging(page_zero_based, page_size) {
                Ok(v) => v,
                Err(e) => {
                    return Err(e);
                },
            }
        };
        proof {
            let src = read_order(set@, reverse_order);
            lemma_page_members(src, page_zero_based, page_size);
            lemma_reverse_members(set@);
            assert forall|k: int| 0 <= k < ids@.len() implies self.entries.spec_contains(
                #[trigger] ids@[k]@,
            ) by {
                assert(ids@[k]@ == page_of(src, page_zero_based, page_size)[k]);
                assert(occurs(src, ids@[k]@));
                let q = crate::state::ordered::index_of(src, ids@[k]@);
                if reverse_order {
                    assert(occurs(set@, src[q]));
                }
                let t = crate::state::ordered::index_of(set@, ids@[k]@);
                assert(self.entries.spec_contains(set@[t]));
            }
        }
        let out = self.resolve_entries(&ids);
        proof {
            assert(out@.map_values(|e: UserCountUpdateHistoryEntry| e@) =~= page_of(
                read_order(self.user_ids(user_addr@), reverse_order),
                page_zero_based,
                page_size,
            ).map_values(|id: Seq<char>| self.entries.spec_get(id)));
        }
        Ok(out)
    }

    /// How many entries one user has.
    pub fn get_user_entries_total_count(&self, user_addr: String) -> (r: u32)
        requires
            self.wf(),
        ensures
            r == self.user_ids(user_addr@).len(),
    {
        match self.user_index.get(&user_addr) {
            Some(s) => {
                proof {
                    let j = crate::state::ordered::index_of(
                        self.user_index.key_model(),
                        user_addr@,
                    );
                    self.user_index.lemma_get_at(j);
                    assert(self.ids_ok(self.user_index.model()[j].1));
                    assert forall|k: int| 0 <= k < s@.len() implies occurs(
                        self.entries.key_model(),
                        #[trigger] s@[k],
                    ) by {
                        assert(self.entries.spec_contains(s@[k]));
                    }
                    crate::state::ordered::lemma_distinct_contained_len(
                        s@,
                        self.entries.key_model(),
                    );
                    self.entries.lemma_models_agree();
                }
                s.get_len()
            },
            None => 0,
        }
    }

    /// One page of the public entries, in either direction.
    pub fn get_public_entries(
        &self,
        page_zero_based: u32,
        page_size: u32,
        reverse_order: bool,
    ) -> (r: Result<Vec<UserCountUpdateHistoryEntry>, ContractError>)
        requires
            self.wf(),
        ensures
            r is Ok <==> page_in_bounds(self.public_index@, page_zero_based, page_size),
            r is Err ==> r == Err::<Vec<UserCountUpdateHistoryEntry>, ContractError>(
                ContractError::OutOfBounds,
            ),
            r matches Ok(v) ==> v@.map_values(|e: UserCountUpdateHistoryEntry| e@) == page_of(
                read_order(self.public_index@, reverse_order),
                page_zero_based,
                page_size,
            ).map_values(|id: Seq<char>| self.entries.spec_get(id)),
    {
        let ids = if reverse_order {
            match keyset_reverse_paging(&self.public_index, page_zero_based, page_size) {
                Ok(v) => v,
                Err(e) => {
                    return Err(e);
                },
            }
        } else {
            match self.public_index.paging(page_zero_based, page_size) {
                Ok(v) => v,
                Err(e) => {
                    return Err(e);
                },
            }
        };
        proof {
            let src = read_order(self.public_index@, reverse_order);
            lemma_page_members(src, page_zero_based, page_size);
            lemma_reverse_members(self.public_index@);
            assert forall|k: int| 0 <= k < ids@.len() implies self.entries.spec_contains(
                #[trigger] ids@[k]@,
            ) by {
                assert(ids@[k]@ == page_of(src, page_zero_based, page_size)[k]);
                assert(occurs(src, ids@[k]@));
                let q = crate::state::ordered::index_of(src, ids@[k]@);
                if reverse_order {
                    assert(occurs(self.public_index@, src[q]));
                }
                let t = crate::state::ordered::index_of(self.public_index@, ids@[k]@);
                assert(self.entries.spec_contains(self.public_index@[t]));
            }
        }
        let out = self.resolve_entries(&ids);
        proof {
            assert(out@.map_values(|e: UserCountUpdateHistoryEntry| e@) =~= page_of(
                read_order(self.public_index@, reverse_order),
                page_zero_based,
                page_size,
            ).map_values(|id: Seq<char>| self.entries.spec_get(id)));
        }
        Ok(out)
    }

    /// How many public entries there are.
    pub fn get_public_entries_total_count(&self) -> (r: u32)
        requires
            self.wf(),
        ensures
            r == self.public_index@.len(),
    {
        self.public_index.get_len()
    }

    /// After an append, the invariant holds again.
    proof fn lemma_add_entry_wf(
        &self,
        prev: UserCountUpdateHistoryManager,
        id: Seq<char>,
        user_addr: Seq<char>,
        e: UserCountUpdateHistoryEntryModel,
    )
        requires
            prev.wf(),
            prev.next_id < u64::MAX,
            prev.entries.model().len() + 1 < u32::MAX,
            spec_decode_id(id) matches Some(p) && p.0 == prev.next_id,
            self.entries.model() == prev.entries.model().push((id, e)),
            e.marked_as_public_at is Some ==> self.public_index@ == prev.public_index@.push(id),
            e.marked_as_public_at is None ==> self.public_index@ == prev.public_index@,
            self.user_index.model() == family_add(prev.user_index.model(), user_addr, id),
            self.user_index.wf(),
            self.entries.wf(),
            self.public_index.wf(),
            self.next_id == prev.next_id + 1,
        ensures
            self.wf(),
    {
        let m = self.entries.model();
        let keys = self.entries.key_model();
        let prev_keys = prev.entries.key_model();
        self.entries.lemma_models_agree();
        prev.entries.lemma_models_agree();
        assert(keys =~= prev_keys.push(id));
        assert forall|i: int| 0 <= i < m.len() implies id_below(#[trigger] keys[i], self.next_id) by {
            if i < prev_keys.len() {
                assert(id_below(prev_keys[i], prev.next_id));
            }
        }
        assert forall|j: int|
            0 <= j < self.user_index.model().len() implies self.ids_ok(
                #[trigger] self.user_index.model()[j].1,
            ) by {
            let fam = family_add(prev.user_index.model(), user_addr, id);
            let prev_fam_keys = prev.user_index.model().map_values(
                |p: (Seq<char>, Seq<Seq<char>>)| p.0,
            );
            if occurs(prev_fam_keys, user_addr) {
                let t = crate::state::ordered::index_of(prev_fam_keys, user_addr);
                if j == t {
                    let prior = prev.user_index.model()[t].1;
                    assert(prev.ids_ok(prior));
                    assert(fam[j].1 == prior.push(id));
                    assert forall|k: int| 0 <= k < prior.len() implies prior[k] != id by {
                        assert(prev.entries.spec_contains(prior[k]));
                        let q = crate::state::ordered::index_of(prev_keys, prior[k]);
                        assert(id_below(prev_keys[q], prev.next_id));
                    }
                    assert forall|k: int|
                        0 <= k < fam[j].1.len() implies self.entries.spec_contains(
                        #[trigger] fam[j].1[k],
                    ) by {
                        if k < prior.len() {
                            assert(prev.entries.spec_contains(prior[k]));
                            let q = crate::state::ordered::index_of(prev_keys, prior[k]);
                            assert(keys[q] == prior[k]);
                            assert(occurs(keys, prior[k]));
                        } else {
                            assert(fam[j].1[k] == id);
                            assert(keys[keys.len() - 1] == id);
                            assert(occurs(keys, id));
                        }
                    }
                } else {
                    assert(self.user_index.model()[j].1 == prev.user_index.model()[j].1);
                    assert(prev.ids_ok(prev.user_index.model()[j].1));
                    self.lemma_ids_still_ok(prev, prev.user_index.model()[j].1);
                }
            } else {
                if j < prev.user_index.model().len() {
                    assert(self.user_index.model()[j] == prev.user_index.model()[j]);
                    assert(prev.ids_ok(prev.user_index.model()[j].1));
                    self.lemma_ids_still_ok(prev, prev.user_index.model()[j].1);
                } else {
                    assert(fam[j].1 =~= Seq::<Seq<char>>::empty().push(id));
                    assert(keys[keys.len() - 1] == id);
                    assert(occurs(keys, id));
                }
            }
        }
        self.lemma_ids_still_ok(prev, prev.public_index@);
        assert forall|k: int|
            0 <= k < self.public_index@.len() implies self.entries.spec_contains(
            #[trigger] self.public_index@[k],
        ) by {
            if k < prev.public_index@.len() {
                assert(prev.ids_ok(prev.public_index@));
                assert(prev.entries.spec_contains(prev.public_index@[k]));
                let q = crate::state::ordered::index_of(prev_keys, prev.public_index@[k]);
                assert(keys[q] == prev_keys[q]);
                assert(occurs(keys, prev.public_index@[k]));
            } else {
                assert(self.public_index@[k] == id);
                assert(keys[keys.len() - 1] == id);
                assert(occurs(keys, id));
            }
        }
        assert(crate::state::ordered::distinct(self.public_index@)) by {
            if self.public_index@.len() == prev.public_index@.len() + 1 {
                assert forall|k: int| 0 <= k < prev.public_index@.len() implies prev.public_index@[k]
                    != id by {
                    assert(prev.entries.spec_contains(prev.public_index@[k]));
                    let q = crate::state::ordered::index_of(prev_keys, prev.public_index@[k]);
                    assert(id_below(prev_keys[q], prev.next_id));
                }
            }
        }
        assert forall|i: int|
            0 <= i < m.len() implies ((#[trigger] m[i].1.marked_as_public_at) is Some
            <==> self.public_index.spec_contains(keys[i])) by {
            if i < prev.entries.model().len() {
                assert(m[i] == prev.entries.model()[i]);
                assert(prev.entries.model()[i].1.marked_as_public_at is Some
                    <==> prev.public_index.spec_contains(prev_keys[i]));
                assert(keys[i] == prev_keys[i]);
                assert(prev_keys[i] != id) by {
                    assert(id_below(prev_keys[i], prev.next_id));
                }
                if self.public_index@.len() == prev.public_index@.len() + 1 {
                    assert(self.public_index.spec_contains(prev_keys[i])
                        <==> occurs(prev.public_index@.push(id), prev_keys[i]));
                    assert(occurs(prev.public_index@.push(id), prev_keys[i]) <==> occurs(
                        prev.public_index@,
                        prev_keys[i],
                    )) by {
                        if occurs(prev.public_index@.push(id), prev_keys[i]) {
                            let q = crate::state::ordered::index_of(
                                prev.public_index@.push(id),
                                prev_keys[i],
                            );
                            if q < prev.public_index@.len() {
                                assert(occurs(prev.public_index@, prev_keys[i]));
                            }
                        } else {
                            if occurs(prev.public_index@, prev_keys[i]) {
                                let q = crate::state::ordered::index_of(
                                    prev.public_index@,
                                    prev_keys[i],
                                );
                                assert(prev.public_index@.push(id)[q] == prev_keys[i]);
                            }
                        }
                    }
                }
            } else {
                assert(keys[i] == id);
                if m[i].1.marked_as_public_at is Some {
                    assert(self.public_index@[self.public_index@.len() - 1] == id);
                } else {
                    assert(!prev.public_index.spec_contains(id));
                }
            }
        }
    }

    /// Ids that were keys of the previous map are keys of the extended map.
    proof fn lemma_ids_still_ok(
        &self,
        prev: UserCountUpdateHistoryManager,
        ids: Seq<Seq<char>>,
    )
        requires
            prev.ids_ok(ids),
            prev.entries.wf(),
            self.entries.key_model() == prev.entries.key_model().push(
                self.entries.key_model().last(),
            ),
        ensures
            self.ids_ok(ids),
    {
        let keys = self.entries.key_model();
        let prev_keys = prev.entries.key_model();
        assert forall|k: int| 0 <= k < ids.len() implies self.entries.spec_contains(
            #[trigger] ids[k],
        ) by {
            assert(prev.entries.spec_contains(ids[k]));
            let q = crate::state::ordered::index_of(prev_keys, ids[k]);
            assert(keys[q] == prev_keys[q]);
            assert(occurs(keys, ids[k]));
        }
    }
}

} // verus!
