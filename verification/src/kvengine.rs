use vstd::prelude::*;

use crate::coremap::as_map;
use crate::coremap::bytes_eq;
use crate::coremap::find_idx;
use crate::coremap::lemma_as_map_contains;
use crate::coremap::lemma_as_map_index;
use crate::coremap::lemma_as_map_push;
use crate::coremap::lemma_as_map_update;
use crate::coremap::unique_keys;

verus! {

broadcast use vstd::slice::group_slice_axioms;

// ---------------------------------------------------------------------------
// Encoding validators
// ---------------------------------------------------------------------------

/// Relies on `core::str::from_utf8`: it returns `Ok` exactly when the slice
/// is valid UTF-8.
#[verifier::external_body]
pub(crate) fn bytes_are_utf8(b: &[u8]) -> (r: bool)
    ensures
        r == vstd::utf8::valid_utf8(b@),
{
    core::str::from_utf8(b).is_ok()
}

/// Does `payload` satisfy the encoding requirement? Binary tables accept
/// anything; unicode tables require valid UTF-8. Total: nothing panics.
pub open spec fn spec_encoding_ok(encoded: bool, payload: Seq<u8>) -> bool {
    !encoded || vstd::utf8::valid_utf8(payload)
}

/// Check one payload against an encoding requirement.
pub fn encoding_ok(encoded: bool, payload: &[u8]) -> (r: bool)
    ensures
        r == spec_encoding_ok(encoded, payload@),
{
    if encoded {
        bytes_are_utf8(payload)
    } else {
        true
    }
}

/// A reusable validator for one encoding requirement: what handlers get
/// from `get_payload_encoder` / `get_id_encoder` and evaluate over a whole
/// batch before mutating anything.
#[derive(Clone, Copy, Debug, PartialEq, Eq, Structural)]
pub struct SingleEncoder {
    pub encoded: bool,
}

impl SingleEncoder {
    /// Validate one payload.
    pub fn is_ok(&self, payload: &[u8]) -> (r: bool)
        ensures
            r == spec_encoding_ok(self.encoded, payload@),
    {
        encoding_ok(self.encoded, payload)
    }
}

// ---------------------------------------------------------------------------
// List containers
// ---------------------------------------------------------------------------

/// A list container: an ordered sequence of blobs behind a reader-writer
/// lock, exactly as a list table keeps it. Readers take shared access for
/// length snapshots; mutators take the exclusive lock for the whole batch.
/// Verus sees the contents only through [`list_view`].
#[verifier::external_body]
pub struct LockedList {
    inner: parking_lot::RwLock<Vec<Vec<u8>>>,
}

/// What a [`LockedList`] holds, in order.
pub uninterp spec fn list_view(l: LockedList) -> Seq<Seq<u8>>;

impl LockedList {
    /// Relies on `parking_lot::RwLock::new`: the lock starts out holding
    /// exactly the value given, here the empty list.
    #[verifier::external_body]
    pub(crate) fn new() -> (r: LockedList)
        ensures
            list_view(r) == Seq::<Seq<u8>>::empty(),
    {
        LockedList { inner: parking_lot::RwLock::new(Vec::new()) }
    }

    /// Relies on `parking_lot::RwLock::read` and `Vec::len`: a shared
    /// length snapshot without the write lock.
    #[verifier::external_body]
    pub(crate) fn len(&self) -> (n: usize)
        ensures
            n == list_view(*self).len(),
    {
        self.inner.read().len()
    }

    /// Relies on `parking_lot::RwLock::write` and `Vec::clear`.
    #[verifier::external_body]
    pub(crate) fn clear(&mut self)
        ensures
            list_view(*final(self)) == Seq::<Seq<u8>>::empty(),
    {
        self.inner.write().clear()
    }

    /// Relies on `parking_lot::RwLock::write` and `Vec::push`.
    #[verifier::external_body]
    pub(crate) fn push(&mut self, v: Vec<u8>)
        ensures
            list_view(*final(self)) == list_view(*old(self)).push(v@),
    {
        self.inner.write().push(v)
    }

    /// Relies on `parking_lot::RwLock::write` and `Vec::insert`, which
    /// shifts the suffix right; `Vec::insert` panics above `len`, so the
    /// index is bounded here.
    #[verifier::external_body]
    pub(crate) fn insert_at(&mut self, i: usize, v: Vec<u8>)
        requires
            i <= list_view(*old(self)).len(),
        ensures
            list_view(*final(self)) == list_view(*old(self)).insert(i as int, v@),
    {
        self.inner.write().insert(i, v)
    }

    /// Relies on `parking_lot::RwLock::write` and `Vec::remove`, which
    /// shifts the suffix left; `Vec::remove` panics from `len` on, so the
    /// index is bounded here.
    #[verifier::external_body]
    pub(crate) fn remove_at(&mut self, i: usize) -> (r: Vec<u8>)
        requires
            i < list_view(*old(self)).len(),
        ensures
            r@ == list_view(*old(self))[i as int],
            list_view(*final(self)) == list_view(*old(self)).remove(i as int),
    {
        self.inner.write().remove(i)
    }

    /// Relies on `parking_lot::RwLock::write` and `Vec::pop`.
    #[verifier::external_body]
    pub(crate) fn pop_last(&mut self) -> (r: Option<Vec<u8>>)
        ensures
            match r {
                Some(v) => list_view(*old(self)).len() > 0 && v@ == list_view(*old(self)).last()
                    && list_view(*final(self)) == list_view(*old(self)).drop_last(),
                None => list_view(*old(self)).len() == 0 && list_view(*final(self)) == list_view(
                    *old(self),
                ),
            },
    {
        self.inner.write().pop()
    }

    /// Relies on `parking_lot::RwLock::read` and `Vec::clone`: a copy of
    /// the whole sequence under the shared lock.
    #[verifier::external_body]
    pub(crate) fn snapshot(&self) -> (r: Vec<Vec<u8>>)
        ensures
            r@.len() == list_view(*self).len(),
            forall|i: int| 0 <= i < r@.len() ==> #[trigger] r@[i]@ == list_view(*self)[i],
    {
        self.inner.read().clone()
    }
}

// ---------------------------------------------------------------------------
// The blob-to-blob table
// ---------------------------------------------------------------------------

/// A blob-keyed blob-value map. `encoded_k` constrains the keys, `encoded_v`
/// the values.
pub struct KVEBlob {
    encoded_k: bool,
    encoded_v: bool,
    base: Vec<(Vec<u8>, Vec<u8>)>,
}

impl KVEBlob {
    /// Keys are pairwise distinct.
    pub closed spec fn wf(&self) -> bool {
        unique_keys(self.base@)
    }

    /// The mathematical contents: key to value.
    pub closed spec fn view(&self) -> Map<Seq<u8>, Seq<u8>> {
        as_map(self.base@).map_values(|v: Vec<u8>| v@)
    }

    pub closed spec fn spec_encoded_k(&self) -> bool {
        self.encoded_k
    }

    pub closed spec fn spec_encoded_v(&self) -> bool {
        self.encoded_v
    }

    /// Create a new blob table.
    pub fn new(encoded_k: bool, encoded_v: bool) -> (r: KVEBlob)
        ensures
            r.wf(),
            r.view() == Map::<Seq<u8>, Seq<u8>>::empty(),
            r.spec_encoded_k() == encoded_k,
            r.spec_encoded_v() == encoded_v,
    {
        let r = KVEBlob { encoded_k, encoded_v, base: Vec::new() };
        proof {
            assert(r.view() =~= Map::<Seq<u8>, Seq<u8>>::empty());
        }
        r
    }

    /// Is the key side unicode-encoded?
    pub fn is_key_encoded(&self) -> (r: bool)
        ensures
            r == self.spec_encoded_k(),
    {
        self.encoded_k
    }

    /// Is the value side unicode-encoded?
    pub fn is_val_encoded(&self) -> (r: bool)
        ensures
            r == self.spec_encoded_v(),
    {
        self.encoded_v
    }

    /// Does `key` satisfy the key encoding?
    pub fn is_key_ok(&self, key: &[u8]) -> (r: bool)
        ensures
            r == spec_encoding_ok(self.spec_encoded_k(), key@),
    {
        encoding_ok(self.encoded_k, key)
    }

    /// Does `val` satisfy the value encoding?
    pub fn is_val_ok(&self, val: &[u8]) -> (r: bool)
        ensures
            r == spec_encoding_ok(self.spec_encoded_v(), val@),
    {
        encoding_ok(self.encoded_v, val)
    }

    /// An encoder instance for values, reusable across a batch.
    pub fn get_val_encoder(&self) -> (r: SingleEncoder)
        ensures
            r.encoded == self.spec_encoded_v(),
    {
        SingleEncoder { encoded: self.encoded_v }
    }

    /// The value bound to `key`, if any.
    pub fn get(&self, key: &[u8]) -> (r: Option<&Vec<u8>>)
        requires
            self.wf(),
        ensures
            match r {
                Some(v) => self@.contains_key(key@) && v@ == self@[key@],
                None => !self@.contains_key(key@),
            },
    {
        let r = find_idx(&self.base, key);
        proof {
            lemma_as_map_contains(self.base@, key@);
        }
        match r {
            Some(i) => {
                proof {
                    lemma_as_map_index(self.base@, i as int);
                }
                Some(&self.base[i].1)
            },
            None => None,
        }
    }

    /// Bind `key` to `val` only if `key` is fresh; report whether the
    /// binding happened. Never a silent overwrite.
    pub fn true_if_insert(&mut self, key: Vec<u8>, val: Vec<u8>) -> (r: bool)
        requires
            old(self).wf(),
        ensures
            final(self).wf(),
            final(self).spec_encoded_k() == old(self).spec_encoded_k(),
            final(self).spec_encoded_v() == old(self).spec_encoded_v(),
            r == !old(self)@.contains_key(key@),
            if r {
                final(self)@ == old(self)@.insert(key@, val@)
            } else {
                final(self)@ == old(self)@
            },
    {
        let ghost base0 = self.base@;
        proof {
            lemma_as_map_contains(base0, key@);
        }
        match find_idx(&self.base, key.as_slice()) {
            Some(_) => false,
            None => {
                proof {
                    lemma_as_map_push(base0, key, val);
                }
                self.base.push((key, val));
                proof {
                    assert(unique_keys(self.base@)) by {
                        assert(forall|x: int|
                            0 <= x < base0.len() ==> #[trigger] self.base@[x] == base0[x]);
                    }
                    assert(final(self)@ =~= old(self)@.insert(
                        self.base@.last().0@,
                        self.base@.last().1@,
                    ));
                }
                true
            },
        }
    }
}

// ---------------------------------------------------------------------------
// The list-of-blobs table
// ---------------------------------------------------------------------------

/// A blob-keyed map of list containers. `encoded_id` constrains the keys,
/// `encoded_payload_element` the list elements.
pub struct KVEListMap {
    encoded_id: bool,
    encoded_payload_element: bool,
    base: Vec<(Vec<u8>, LockedList)>,
}

impl KVEListMap {
    /// Keys are pairwise distinct.
    pub closed spec fn wf(&self) -> bool {
        unique_keys(self.base@)
    }

    /// The mathematical contents: list name to list elements.
    pub closed spec fn view(&self) -> Map<Seq<u8>, Seq<Seq<u8>>> {
        as_map(self.base@).map_values(|l: LockedList| list_view(l))
    }

    pub closed spec fn spec_encoded_id(&self) -> bool {
        self.encoded_id
    }

    pub closed spec fn spec_encoded_payload(&self) -> bool {
        self.encoded_payload_element
    }

    /// Create a new list table. `encoded id == encoded key` and
    /// `encoded payload == encoded elements`.
    pub fn new(encoded_id: bool, encoded_payload_element: bool) -> (r: KVEListMap)
        ensures
            r.wf(),
            r.view() == Map::<Seq<u8>, Seq<Seq<u8>>>::empty(),
            r.spec_encoded_id() == encoded_id,
            r.spec_encoded_payload() == encoded_payload_element,
    {
        let r = KVEListMap { encoded_id, encoded_payload_element, base: Vec::new() };
        proof {
            assert(r.view() =~= Map::<Seq<u8>, Seq<Seq<u8>>>::empty());
        }
        r
    }

    /// Is the list-name side unicode-encoded?
    pub fn is_id_encoded(&self) -> (r: bool)
        ensures
            r == self.spec_encoded_id(),
    {
        self.encoded_id
    }

    /// Is the element side unicode-encoded?
    pub fn is_payload_encoded(&self) -> (r: bool)
        ensures
            r == self.spec_encoded_payload(),
    {
        self.encoded_payload_element
    }

    /// An encoder instance for the payload elements.
    pub fn get_payload_encoder(&self) -> (r: SingleEncoder)
        ensures
            r.encoded == self.spec_encoded_payload(),
    {
        SingleEncoder { encoded: self.encoded_payload_element }
    }

    /// An encoder instance for the ID (the list name).
    pub fn get_id_encoder(&self) -> (r: SingleEncoder)
        ensures
            r.encoded == self.spec_encoded_id(),
    {
        SingleEncoder { encoded: self.encoded_id }
    }

    /// Does `val` satisfy the key encoding?
    pub fn encode_key(&self, val: &[u8]) -> (r: bool)
        ensures
            r == spec_encoding_ok(self.spec_encoded_id(), val@),
    {
        encoding_ok(self.encoded_id, val)
    }

    /// Index of the entry holding `name`, tied to the map view.
    fn find(&self, name: &[u8]) -> (r: Option<usize>)
        requires
            self.wf(),
        ensures
            match r {
                Some(i) => i < self.base@.len() && self.base@[i as int].0@ == name@
                    && self@.contains_key(name@),
                None => !self@.contains_key(name@),
            },
    {
        let r = find_idx(&self.base, name);
        proof {
            lemma_as_map_contains(self.base@, name@);
            match r {
                Some(i) => {},
                None => {},
            }
        }
        r
    }

    /// Does a list of this name exist?
    pub fn has_list(&self, name: &[u8]) -> (r: bool)
        requires
            self.wf(),
        ensures
            r == self@.contains_key(name@),
    {
        self.find(name).is_some()
    }

    /// Length of the named list, if it exists.
    pub fn len(&self, name: &[u8]) -> (r: Option<usize>)
        requires
            self.wf(),
        ensures
            match r {
                Some(n) => self@.contains_key(name@) && n == self@[name@].len(),
                None => !self@.contains_key(name@),
            },
    {
        match self.find(name) {
            Some(i) => {
                proof {
                    lemma_as_map_index(self.base@, i as int);
                }
                Some(self.base[i].1.len())
            },
            None => None,
        }
    }

    /// Create the named list if the name encodes and is fresh: `None` if
    /// the name fails the key encoding, otherwise `Some(created)`.
    pub fn add_list(&mut self, listname: Vec<u8>) -> (r: Option<bool>)
        requires
            old(self).wf(),
        ensures
            final(self).wf(),
            final(self).spec_encoded_id() == old(self).spec_encoded_id(),
            final(self).spec_encoded_payload() == old(self).spec_encoded_payload(),
            match r {
                None => !spec_encoding_ok(old(self).spec_encoded_id(), listname@) && final(self)@
                    == old(self)@,
                Some(created) => spec_encoding_ok(old(self).spec_encoded_id(), listname@) && (
                if created {
                    !old(self)@.contains_key(listname@) && final(self)@ == old(self)@.insert(
                        listname@,
                        Seq::<Seq<u8>>::empty(),
                    )
                } else {
                    old(self)@.contains_key(listname@) && final(self)@ == old(self)@
                }),
            },
    {
        if !self.encode_key(listname.as_slice()) {
            return None;
        }
        if self.has_list(listname.as_slice()) {
            return Some(false);
        }
        let ghost base0 = self.base@;
        let l = LockedList::new();
        proof {
            lemma_as_map_push(base0, listname, l);
        }
        self.base.push((listname, l));
        proof {
            assert(unique_keys(self.base@)) by {
                lemma_as_map_contains(base0, self.base@.last().0@);
                assert(forall|x: int, y: int|
                    0 <= x < y < self.base@.len() ==> (#[trigger] self.base@[x]).0@
                        != (#[trigger] self.base@[y]).0@) by {
                    assert(forall|x: int|
                        0 <= x < base0.len() ==> #[trigger] self.base@[x] == base0[x]);
                }
            }
            assert(final(self)@ =~= old(self)@.insert(
                self.base@.last().0@,
                Seq::<Seq<u8>>::empty(),
            ));
        }
        Some(true)
    }

    /// Truncate the named list to length zero.
    pub fn clear_list(&mut self, name: &[u8])
        requires
            old(self).wf(),
            old(self)@.contains_key(name@),
        ensures
            final(self).wf(),
            final(self).spec_encoded_id() == old(self).spec_encoded_id(),
            final(self).spec_encoded_payload() == old(self).spec_encoded_payload(),
            final(self)@ == old(self)@.insert(name@, Seq::<Seq<u8>>::empty()),
    {
        let ghost base0 = self.base@;
        let i = match self.find(name) {
            Some(i) => i,
            None => {
                proof {
                    assert(false);
                }
                return ;
            },
        };
        let l: &mut LockedList = &mut self.base[i].1;
        l.clear();
        proof {
            self.lemma_entry_updated(base0, i as int, name@);
        }
    }

    /// Append `values` to the named list, in the given order, atomically
    /// under the list's exclusive lock.
    pub fn push_elems(&mut self, name: &[u8], values: Vec<Vec<u8>>)
        requires
            old(self).wf(),
            old(self)@.contains_key(name@),
        ensures
            final(self).wf(),
            final(self).spec_encoded_id() == old(self).spec_encoded_id(),
            final(self).spec_encoded_payload() == old(self).spec_encoded_payload(),
            final(self)@ == old(self)@.insert(
                name@,
                old(self)@[name@] + values@.map_values(|v: Vec<u8>| v@),
            ),
    {
        let ghost base0 = self.base@;
        let i = match self.find(name) {
            Some(i) => i,
            None => {
                proof {
                    assert(false);
                }
                return ;
            },
        };
        proof {
            lemma_as_map_index(base0, i as int);
        }
        let l: &mut LockedList = &mut self.base[i].1;
        let ghost lv0 = list_view(*l);
        let mut values = values;
        let ghost vals = values@.map_values(|v: Vec<u8>| v@);
        while values.len() > 0
            invariant
                values@.len() <= vals.len(),
                forall|j: int|
                    0 <= j < values@.len() ==> (#[trigger] values@[j])@ == vals[vals.len()
                        - values@.len() + j],
                list_view(*l) == lv0 + vals.subrange(0, vals.len() - values@.len()),
            decreases values@.len(),
        {
            let v = values.remove(0);
            l.push(v);
            proof {
                assert(list_view(*l) =~= lv0 + vals.subrange(0, vals.len() - values@.len()));
            }
        }
        proof {
            assert(vals.subrange(0, vals.len() as int) =~= vals);
            assert(list_view(*l) == lv0 + vals);
            self.lemma_entry_updated(base0, i as int, name@);
        }
    }

    /// Insert `value` at `idx` if `idx` is within the current length,
    /// shifting the suffix right; otherwise leave everything unchanged and
    /// report `false` (a bad index).
    pub fn insert_elem(&mut self, name: &[u8], idx: usize, value: Vec<u8>) -> (r: bool)
        requires
            old(self).wf(),
            old(self)@.contains_key(name@),
        ensures
            final(self).wf(),
            final(self).spec_encoded_id() == old(self).spec_encoded_id(),
            final(self).spec_encoded_payload() == old(self).spec_encoded_payload(),
            r == (idx < old(self)@[name@].len()),
            if r {
                final(self)@ == old(self)@.insert(
                    name@,
                    old(self)@[name@].insert(idx as int, value@),
                )
            } else {
                final(self)@ == old(self)@
            },
    {
        let ghost base0 = self.base@;
        let i = match self.find(name) {
            Some(i) => i,
            None => {
                proof {
                    assert(false);
                }
                return false;
            },
        };
        proof {
            lemma_as_map_index(base0, i as int);
        }
        let l: &mut LockedList = &mut self.base[i].1;
        if idx < l.len() {
            l.insert_at(idx, value);
            proof {
                self.lemma_entry_updated(base0, i as int, name@);
            }
            true
        } else {
            proof {
                self.lemma_entry_updated(base0, i as int, name@);
                assert(final(self)@ =~= old(self)@);
            }
            false
        }
    }

    /// Remove the element at `idx` if it exists, shifting the suffix left;
    /// otherwise leave everything unchanged and report `false`.
    pub fn remove_elem(&mut self, name: &[u8], idx: usize) -> (r: bool)
        requires
            old(self).wf(),
            old(self)@.contains_key(name@),
        ensures
            final(self).wf(),
            final(self).spec_encoded_id() == old(self).spec_encoded_id(),
            final(self).spec_encoded_payload() == old(self).spec_encoded_payload(),
            r == (idx < old(self)@[name@].len()),
            if r {
                final(self)@ == old(self)@.insert(name@, old(self)@[name@].remove(idx as int))
            } else {
                final(self)@ == old(self)@
            },
    {
        let ghost base0 = self.base@;
        let i = match self.find(name) {
            Some(i) => i,
            None => {
                proof {
                    assert(false);
                }
                return false;
            },
        };
        proof {
            lemma_as_map_index(base0, i as int);
        }
        let l: &mut LockedList = &mut self.base[i].1;
        if idx < l.len() {
            let _ = l.remove_at(idx);
            proof {
                self.lemma_entry_updated(base0, i as int, name@);
            }
            true
        } else {
            proof {
                self.lemma_entry_updated(base0, i as int, name@);
                assert(final(self)@ =~= old(self)@);
            }
            false
        }
    }

    /// Remove and return the element at `idx`, or the last element when no
    /// index is given. `None` reports a bad index (or an empty list).
    pub fn pop_elem(&mut self, name: &[u8], idx: Option<usize>) -> (r: Option<Vec<u8>>)
        requires
            old(self).wf(),
            old(self)@.contains_key(name@),
        ensures
            final(self).wf(),
            final(self).spec_encoded_id() == old(self).spec_encoded_id(),
            final(self).spec_encoded_payload() == old(self).spec_encoded_payload(),
            ({
                let lst = old(self)@[name@];
                match idx {
                    Some(i) => match r {
                        Some(v) => i < lst.len() && v@ == lst[i as int] && final(self)@ == old(
                            self,
                        )@.insert(name@, lst.remove(i as int)),
                        None => i >= lst.len() && final(self)@ == old(self)@,
                    },
                    None => match r {
                        Some(v) => lst.len() > 0 && v@ == lst.last() && final(self)@ == old(
                            self,
                        )@.insert(name@, lst.drop_last()),
                        None => lst.len() == 0 && final(self)@ == old(self)@,
                    },
                }
            }),
    {
        let ghost base0 = self.base@;
        let i = match self.find(name) {
            Some(i) => i,
            None => {
                proof {
                    assert(false);
                }
                return None;
            },
        };
        proof {
            lemma_as_map_index(base0, i as int);
        }
        let l: &mut LockedList = &mut self.base[i].1;
        match idx {
            Some(at) => {
                if at < l.len() {
                    let v = l.remove_at(at);
                    proof {
                        self.lemma_entry_updated(base0, i as int, name@);
                    }
                    Some(v)
                } else {
                    proof {
                        self.lemma_entry_updated(base0, i as int, name@);
                        assert(final(self)@ =~= old(self)@);
                    }
                    None
                }
            },
            None => {
                let r = l.pop_last();
                proof {
                    self.lemma_entry_updated(base0, i as int, name@);
                    if r is None {
                        assert(final(self)@ =~= old(self)@);
                    }
                }
                r
            },
        }
    }

    /// A copy of the named list, in order.
    pub fn list_snapshot(&self, name: &[u8]) -> (r: Option<Vec<Vec<u8>>>)
        requires
            self.wf(),
        ensures
            match r {
                Some(v) => self@.contains_key(name@) && v@.len() == self@[name@].len() && (forall|
                    j: int,
                |
                    0 <= j < v@.len() ==> (#[trigger] v@[j])@ == self@[name@][j]),
                None => !self@.contains_key(name@),
            },
    {
        match self.find(name) {
            Some(i) => {
                proof {
                    lemma_as_map_index(self.base@, i as int);
                }
                Some(self.base[i].1.snapshot())
            },
            None => None,
        }
    }

    /// After mutating the container at entry `i` in place, the map view is
    /// the old view with that one key re-bound to the container's new
    /// contents.
    proof fn lemma_entry_updated(&self, base0: Seq<(Vec<u8>, LockedList)>, i: int, name: Seq<u8>)
        requires
            unique_keys(base0),
            0 <= i < base0.len(),
            base0[i].0@ == name,
            self.base@.len() == base0.len(),
            self.base@[i].0 == base0[i].0,
            forall|j: int| 0 <= j < base0.len() && j != i ==> self.base@[j] == base0[j],
        ensures
            self.wf(),
            as_map(self.base@).map_values(|l: LockedList| list_view(l)) == as_map(
                base0,
            ).map_values(|l: LockedList| list_view(l)).insert(name, list_view(self.base@[i].1)),
    {
        let new_l = self.base@[i].1;
        lemma_as_map_update(base0, i, new_l);
        assert(self.base@ =~= base0.update(i, (base0[i].0, new_l)));
        assert(as_map(self.base@).map_values(|l: LockedList| list_view(l)) =~= as_map(
            base0,
        ).map_values(|l: LockedList| list_view(l)).insert(name, list_view(new_l)));
    }
}

} // verus!
