//! Forward and reverse pagination over the ordered containers.
//!
//! A page request names a zero-based page and a page size. Over an empty
//! container every request yields an empty page; a request whose first
//! position lies beyond the end fails; a request starting exactly at the end
//! yields an empty page. Reverse pagination pages over the reversed order,
//! newest first.

use vstd::prelude::*;

use crate::errors::ContractError;
use crate::state::ordered::{OrderedMap, StringSet};

verus! {

/// Whether the page request is within bounds: an empty sequence accepts every
/// request, and otherwise the first position may not lie beyond the end.
pub open spec fn page_in_bounds<T>(s: Seq<T>, page: u32, size: u32) -> bool {
    s.len() == 0 || page * size <= s.len()
}

/// The page itself: the elements from position `page * size` up to the end of
/// the page or of the sequence, whichever comes first.
pub open spec fn page_of<T>(s: Seq<T>, page: u32, size: u32) -> Seq<T> {
    let start = if page * size <= s.len() {
        page * size as int
    } else {
        s.len() as int
    };
    let end = if start + size <= s.len() {
        start + size
    } else {
        s.len() as int
    };
    s.subrange(start, end)
}

/// A page starting exactly at the end of the sequence is empty, not an error.
///
/// Together with `page_in_bounds` this pins the boundary: one position past
/// the end fails, the end itself yields the empty page.
pub proof fn lemma_page_at_end_is_empty<T>(s: Seq<T>, page: u32, size: u32)
    requires
        page * size == s.len(),
    ensures
        page_in_bounds(s, page, size),
        page_of(s, page, size) == Seq::<T>::empty(),
{
    assert(page_of(s, page, size) =~= Seq::<T>::empty());
}

/// Reverse pagination is the exact reverse of forward pagination: over any
/// sequence, the full reverse page equals the full forward page reversed.
pub proof fn lemma_reverse_page_is_reverse_of_forward<T>(s: Seq<T>, size: u32)
    requires
        s.len() == size,
    ensures
        page_of(s.reverse(), 0, size) == page_of(s, 0, size).reverse(),
{
    assert(page_of(s, 0, size) =~= s);
    assert(page_of(s.reverse(), 0, size) =~= s.reverse());
}

/// The sequence a paged read walks: the index itself, or its reverse for
/// newest-first reads.
pub open spec fn read_order<T>(s: Seq<T>, reverse_order: bool) -> Seq<T> {
    if reverse_order {
        s.reverse()
    } else {
        s
    }
}

/// Every element of a page occurs in the paged sequence.
pub proof fn lemma_page_members<T>(s: Seq<T>, page: u32, size: u32)
    ensures
        forall|k: int|
            0 <= k < page_of(s, page, size).len() ==> crate::state::ordered::occurs(
                s,
                #[trigger] page_of(s, page, size)[k],
            ),
{
    assert forall|k: int| 0 <= k < page_of(s, page, size).len() implies crate::state::ordered::occurs(
        s,
        #[trigger] page_of(s, page, size)[k],
    ) by {
        let start = if page * size <= s.len() {
            page * size as int
        } else {
            s.len() as int
        };
        assert(page_of(s, page, size)[k] == s[start + k]);
    }
}

/// The elements of a reversed sequence are the elements of the sequence.
pub proof fn lemma_reverse_members<T>(s: Seq<T>)
    ensures
        forall|k: int|
            0 <= k < s.len() ==> crate::state::ordered::occurs(s, #[trigger] s.reverse()[k]),
{
    assert forall|k: int| 0 <= k < s.len() implies crate::state::ordered::occurs(
        s,
        #[trigger] s.reverse()[k],
    ) by {
        assert(s.reverse()[k] == s[s.len() - 1 - k]);
    }
}

impl StringSet {
    /// The requested page, in insertion order.
    pub fn paging(&self, start_page: u32, size: u32) -> (r: Result<Vec<String>, ContractError>)
        requires
            self.wf(),
        ensures
            r is Ok <==> page_in_bounds(self.model(), start_page, size),
            r is Err ==> r == Err::<Vec<String>, ContractError>(ContractError::OutOfBounds),
            r matches Ok(v) ==> v@.map_values(|s: String| s@) == page_of(
                self.model(),
                start_page,
                size,
            ),
    {
        let total: u64 = self.get_len() as u64;
        proof {
            vstd::arithmetic::mul::lemma_mul_upper_bound(
                start_page as int,
                u32::MAX as int,
                size as int,
                u32::MAX as int,
            );
        }
        let start: u64 = (start_page as u64) * (size as u64);
        if total == 0 {
            let r: Vec<String> = Vec::new();
            proof {
                assert(r@.map_values(|s: String| s@) =~= page_of(self.model(), start_page, size));
            }
            return Ok(r);
        }
        if start > total {
            return Err(ContractError::OutOfBounds);
        }
        let end: u64 = if start + (size as u64) <= total {
            start + (size as u64)
        } else {
            total
        };
        let mut v: Vec<String> = Vec::new();
        let mut i: usize = start as usize;
        while i < end as usize
            invariant
                start <= i <= end,
                end <= self.model().len(),
                self.wf(),
                v@.len() == i - start,
                forall|j: int| 0 <= j < v@.len() ==> v@[j]@ == self.model()[start + j],
            decreases end - i,
        {
            v.push(self.at(i).clone());
            i = i + 1;
        }
        proof {
            assert(v@.map_values(|s: String| s@) =~= page_of(self.model(), start_page, size));
        }
        Ok(v)
    }
}

impl<V: View> OrderedMap<V> {
    /// The requested page of the keys, in insertion order.
    pub fn paging_keys(&self, start_page: u32, size: u32) -> (r: Result<
        Vec<String>,
        ContractError,
    >)
        requires
            self.wf(),
        ensures
            r is Ok <==> page_in_bounds(self.key_model(), start_page, size),
            r is Err ==> r == Err::<Vec<String>, ContractError>(ContractError::OutOfBounds),
            r matches Ok(v) ==> v@.map_values(|s: String| s@) == page_of(
                self.key_model(),
                start_page,
                size,
            ),
    {
        proof {
            self.lemma_models_agree();
        }
        let total: u64 = self.get_len() as u64;
        proof {
            vstd::arithmetic::mul::lemma_mul_upper_bound(
                start_page as int,
                u32::MAX as int,
                size as int,
                u32::MAX as int,
            );
        }
        let start: u64 = (start_page as u64) * (size as u64);
        if total == 0 {
            let r: Vec<String> = Vec::new();
            proof {
                assert(r@.map_values(|s: String| s@) =~= page_of(
                    self.key_model(),
                    start_page,
                    size,
                ));
            }
            return Ok(r);
        }
        if start > total {
            return Err(ContractError::OutOfBounds);
        }
        let end: u64 = if start + (size as u64) <= total {
            start + (size as u64)
        } else {
            total
        };
        let mut v: Vec<String> = Vec::new();
        let mut i: usize = start as usize;
        while i < end as usize
            invariant
                start <= i <= end,
                end <= self.key_model().len(),
                self.wf(),
                self.key_model().len() == self.model().len(),
                v@.len() == i - start,
                forall|j: int| 0 <= j < v@.len() ==> v@[j]@ == self.key_model()[start + j],
            decreases end - i,
        {
            proof {
                self.lemma_models_agree();
            }
            v.push(self.key_at(i).clone());
            i = i + 1;
        }
        proof {
            assert(v@.map_values(|s: String| s@) =~= page_of(self.key_model(), start_page, size));
        }
        Ok(v)
    }
}

/// The requested page of the set, in reverse insertion order: newest first.
pub fn keyset_reverse_paging(keyset: &StringSet, start_page: u32, size: u32) -> (r: Result<
    Vec<String>,
    ContractError,
>)
    requires
        keyset.wf(),
    ensures
        r is Ok <==> page_in_bounds(keyset.model(), start_page, size),
        r is Err ==> r == Err::<Vec<String>, ContractError>(ContractError::OutOfBounds),
        r matches Ok(v) ==> v@.map_values(|s: String| s@) == page_of(
            keyset.model().reverse(),
            start_page,
            size,
        ),
{
    let total: u64 = keyset.get_len() as u64;
    proof {
        vstd::arithmetic::mul::lemma_mul_upper_bound(
            start_page as int,
            u32::MAX as int,
            size as int,
            u32::MAX as int,
        );
    }
    let start: u64 = (start_page as u64) * (size as u64);
    if total == 0 {
        let r: Vec<String> = Vec::new();
        proof {
            assert(r@.map_values(|s: String| s@) =~= page_of(
                keyset.model().reverse(),
                start_page,
                size,
            ));
        }
        return Ok(r);
    }
    if start > total {
        return Err(ContractError::OutOfBounds);
    }
    let end: u64 = if start + (size as u64) <= total {
        start + (size as u64)
    } else {
        total
    };
    let mut v: Vec<String> = Vec::new();
    let mut i: usize = start as usize;
    while i < end as usize
        invariant
            start <= i <= end,
            end <= keyset.model().len(),
            keyset.wf(),
            v@.len() == i - start,
            forall|j: int|
                0 <= j < v@.len() ==> v@[j]@ == keyset.model()[keyset.model().len() - 1 - (start
                    + j)],
        decreases end - i,
    {
        let phys: usize = keyset.get_len() as usize - 1 - i;
        v.push(keyset.at(phys).clone());
        i = i + 1;
    }
    proof {
        assert(v@.map_values(|s: String| s@) =~= page_of(
            keyset.model().reverse(),
            start_page,
            size,
        ));
    }
    Ok(v)
}

/// The requested page of the map's keys, in reverse insertion order: newest
/// first. Callers resolve each key against the map itself.
pub fn keymap_reverse_paging<V: View>(keymap: &OrderedMap<V>, start_page: u32, size: u32) -> (r:
    Result<Vec<String>, ContractError>)
    requires
        keymap.wf(),
    ensures
        r is Ok <==> page_in_bounds(keymap.key_model(), start_page, size),
        r is Err ==> r == Err::<Vec<String>, ContractError>(ContractError::OutOfBounds),
        r matches Ok(v) ==> v@.map_values(|s: String| s@) == page_of(
            keymap.key_model().reverse(),
            start_page,
            size,
        ),
{
    proof {
        keymap.lemma_models_agree();
    }
    let total: u64 = keymap.get_len() as u64;
    proof {
        vstd::arithmetic::mul::lemma_mul_upper_bound(
            start_page as int,
            u32::MAX as int,
            size as int,
            u32::MAX as int,
        );
    }
    let start: u64 = (start_page as u64) * (size as u64);
    if total == 0 {
        let r: Vec<String> = Vec::new();
        proof {
            assert(r@.map_values(|s: String| s@) =~= page_of(
                keymap.key_model().reverse(),
                start_page,
                size,
            ));
        }
        return Ok(r);
    }
    if start > total {
        return Err(ContractError::OutOfBounds);
    }
    let end: u64 = if start + (size as u64) <= total {
        start + (size as u64)
    } else {
        total
    };
    let mut v: Vec<String> = Vec::new();
    let mut i: usize = start as usize;
    while i < end as usize
        invariant
            start <= i <= end,
            end <= keymap.key_model().len(),
            keymap.wf(),
            keymap.key_model().len() == keymap.model().len(),
            v@.len() == i - start,
            forall|j: int|
                0 <= j < v@.len() ==> v@[j]@ == keymap.key_model()[keymap.key_model().len() - 1 - (
                start + j)],
        decreases end - i,
    {
        proof {
            keymap.lemma_models_agree();
        }
        let phys: usize = keymap.get_len() as usize - 1 - i;
        v.push(keymap.key_at(phys).clone());
        i = i + 1;
    }
    proof {
        assert(v@.map_values(|s: String| s@) =~= page_of(
            keymap.key_model().reverse(),
            start_page,
            size,
        ));
    }
    Ok(v)
}

} // verus!
