//! The two persistent caches of the resolver: the pin cache, mapping an
//! identity to its authoritative key id, and the saved-key cache, mapping a
//! key id to stored public-key material. Both are modelled as ordered lists
//! of entries keyed by their first occurrence.

use vstd::prelude::*;

use crate::bytes::{bytes_eq, copy_bytes};
use crate::keyring::{KeyEntry, KeyEntryV};

verus! {

broadcast use crate::bytes::lemma_bytes_deep_view;

/// One pinned identity: `uid` resolves to key id `id` until every fallback fails.
pub struct Pin {
    pub uid: Vec<u8>,
    pub id: Vec<u8>,
}

/// The ghost form of [`Pin`].
#[verifier::ext_equal]
pub ghost struct PinV {
    pub uid: Seq<u8>,
    pub id: Seq<u8>,
}

impl View for Pin {
    type V = PinV;

    open spec fn view(&self) -> PinV {
        PinV { uid: self.uid@, id: self.id@ }
    }
}

impl DeepView for Pin {
    type V = PinV;

    open spec fn deep_view(&self) -> PinV {
        self.view()
    }
}

/// The pinned key id for `uid`: the first entry with that uid, if any.
pub open spec fn spec_pin_of(pins: Seq<PinV>, uid: Seq<u8>) -> Option<Seq<u8>>
    decreases pins.len(),
{
    if pins.len() == 0 {
        None
    } else if pins[0].uid == uid {
        Some(pins[0].id)
    } else {
        spec_pin_of(pins.drop_first(), uid)
    }
}

/// The cache after pinning `uid` to `id`: the first entry for `uid` is
/// overwritten, or a new entry is appended.
pub open spec fn spec_set_pin(pins: Seq<PinV>, uid: Seq<u8>, id: Seq<u8>) -> Seq<PinV>
    decreases pins.len(),
{
    if pins.len() == 0 {
        seq![PinV { uid, id }]
    } else if pins[0].uid == uid {
        seq![PinV { uid, id }] + pins.drop_first()
    } else {
        seq![pins[0]] + spec_set_pin(pins.drop_first(), uid, id)
    }
}

/// Pinning `uid` makes its lookup yield exactly the new id.
pub proof fn lemma_pin_of_set(pins: Seq<PinV>, uid: Seq<u8>, id: Seq<u8>)
    ensures
        spec_pin_of(spec_set_pin(pins, uid, id), uid) == Some(id),
    decreases pins.len(),
{
    if pins.len() == 0 {
    } else if pins[0].uid == uid {
    } else {
        lemma_pin_of_set(pins.drop_first(), uid, id);
        assert((seq![pins[0]] + spec_set_pin(pins.drop_first(), uid, id)).drop_first()
            =~= spec_set_pin(pins.drop_first(), uid, id));
    }
}

/// Pinning `uid` leaves every other identity's pin unchanged.
pub proof fn lemma_pin_of_set_other(pins: Seq<PinV>, uid: Seq<u8>, id: Seq<u8>, u: Seq<u8>)
    requires
        u != uid,
    ensures
        spec_pin_of(spec_set_pin(pins, uid, id), u) == spec_pin_of(pins, u),
    decreases pins.len(),
{
    if pins.len() == 0 {
        let s = seq![PinV { uid, id }];
        assert(s.len() == 1 && s[0] == PinV { uid, id });
        assert(s.drop_first() =~= Seq::<PinV>::empty());
        assert(spec_pin_of(s, u) == spec_pin_of(s.drop_first(), u));
        assert(spec_pin_of(Seq::<PinV>::empty(), u) is None);
    } else if pins[0].uid == uid {
        let s = seq![PinV { uid, id }] + pins.drop_first();
        assert(s.len() == pins.len() && s[0] == PinV { uid, id });
        assert(s.drop_first() =~= pins.drop_first());
        assert(spec_pin_of(s, u) == spec_pin_of(pins.drop_first(), u));
        assert(spec_pin_of(pins, u) == spec_pin_of(pins.drop_first(), u));
    } else {
        lemma_pin_of_set_other(pins.drop_first(), uid, id, u);
        let s = seq![pins[0]] + spec_set_pin(pins.drop_first(), uid, id);
        assert(s.len() == 1 + spec_set_pin(pins.drop_first(), uid, id).len() && s[0] == pins[0]);
        assert(s.drop_first() =~= spec_set_pin(pins.drop_first(), uid, id));
        if pins[0].uid == u {
            assert(spec_pin_of(s, u) == Some(pins[0].id));
            assert(spec_pin_of(pins, u) == Some(pins[0].id));
        } else {
            assert(spec_pin_of(s, u) == spec_pin_of(s.drop_first(), u));
            assert(spec_pin_of(pins, u) == spec_pin_of(pins.drop_first(), u));
        }
    }
}

proof fn lemma_set_pin_found(pins: Seq<PinV>, uid: Seq<u8>, id: Seq<u8>, i: int)
    requires
        0 <= i < pins.len(),
        pins[i].uid == uid,
        forall|j: int| 0 <= j < i ==> pins[j].uid != uid,
    ensures
        spec_set_pin(pins, uid, id) == pins.update(i, PinV { uid, id }),
    decreases i,
{
    if i == 0 {
        assert(seq![PinV { uid, id }] + pins.drop_first() =~= pins.update(0, PinV { uid, id }));
    } else {
        assert(pins[0].uid != uid);
        lemma_set_pin_found(pins.drop_first(), uid, id, i - 1);
        assert(seq![pins[0]] + pins.drop_first().update(i - 1, PinV { uid, id }) =~= pins.update(
            i,
            PinV { uid, id },
        ));
    }
}

proof fn lemma_set_pin_missing(pins: Seq<PinV>, uid: Seq<u8>, id: Seq<u8>)
    requires
        forall|j: int| 0 <= j < pins.len() ==> pins[j].uid != uid,
    ensures
        spec_set_pin(pins, uid, id) == pins.push(PinV { uid, id }),
    decreases pins.len(),
{
    if pins.len() == 0 {
        assert(seq![PinV { uid, id }] =~= pins.push(PinV { uid, id }));
    } else {
        lemma_set_pin_missing(pins.drop_first(), uid, id);
        assert(seq![pins[0]] + pins.drop_first().push(PinV { uid, id }) =~= pins.push(
            PinV { uid, id },
        ));
    }
}

proof fn lemma_pin_of_found(pins: Seq<PinV>, uid: Seq<u8>, i: int)
    requires
        0 <= i < pins.len(),
        pins[i].uid == uid,
        forall|j: int| 0 <= j < i ==> pins[j].uid != uid,
    ensures
        spec_pin_of(pins, uid) == Some(pins[i].id),
    decreases i,
{
    if i == 0 {
    } else {
        lemma_pin_of_found(pins.drop_first(), uid, i - 1);
    }
}

proof fn lemma_pin_of_missing(pins: Seq<PinV>, uid: Seq<u8>)
    requires
        forall|j: int| 0 <= j < pins.len() ==> pins[j].uid != uid,
    ensures
        spec_pin_of(pins, uid) is None,
    decreases pins.len(),
{
    if pins.len() > 0 {
        lemma_pin_of_missing(pins.drop_first(), uid);
    }
}

/// The persistent pin cache.
pub struct PinStore {
    pub pins: Vec<Pin>,
}

impl View for PinStore {
    type V = Seq<PinV>;

    open spec fn view(&self) -> Seq<PinV> {
        self.pins.deep_view()
    }
}

impl PinStore {
    pub fn new() -> (r: PinStore)
        ensures
            r@ =~= Seq::<PinV>::empty(),
    {
        PinStore { pins: Vec::new() }
    }

    /// The pinned key id for `uid`, if one was recorded.
    pub fn lookup(&self, uid: &Vec<u8>) -> (r: Option<Vec<u8>>)
        ensures
            match spec_pin_of(self@, uid@) {
                Some(id) => r matches Some(k) && k@ == id,
                None => r is None,
            },
    {
        let mut i: usize = 0;
        while i < self.pins.len()
            invariant
                i <= self@.len(),
                forall|j: int| 0 <= j < i ==> self@[j].uid != uid@,
            decreases self@.len() - i,
        {
            if bytes_eq(&self.pins[i].uid, uid) {
                proof {
                    lemma_pin_of_found(self@, uid@, i as int);
                }
                return Some(copy_bytes(&self.pins[i].id));
            }
            i += 1;
        }
        proof {
            lemma_pin_of_missing(self@, uid@);
        }
        None
    }

    /// Record `uid -> id`, overwriting an existing pin for `uid`.
    pub fn write(&mut self, uid: &Vec<u8>, id: &Vec<u8>)
        ensures
            final(self)@ == spec_set_pin(old(self)@, uid@, id@),
    {
        let mut i: usize = 0;
        while i < self.pins.len()
            invariant
                i <= self@.len(),
                self@ == old(self)@,
                forall|j: int| 0 <= j < i ==> self@[j].uid != uid@,
            decreases self@.len() - i,
        {
            if bytes_eq(&self.pins[i].uid, uid) {
                let entry = Pin { uid: copy_bytes(uid), id: copy_bytes(id) };
                self.pins.set(i, entry);
                proof {
                    lemma_set_pin_found(old(self)@, uid@, id@, i as int);
                    assert(self@ =~= old(self)@.update(i as int, PinV { uid: uid@, id: id@ }));
                }
                return ;
            }
            i += 1;
        }
        let entry = Pin { uid: copy_bytes(uid), id: copy_bytes(id) };
        self.pins.push(entry);
        proof {
            lemma_set_pin_missing(old(self)@, uid@, id@);
            assert(self@ =~= old(self)@.push(PinV { uid: uid@, id: id@ }));
        }
    }
}

/// One saved public key, stored under its derived key id.
pub struct SavedKey {
    pub id: Vec<u8>,
    pub key: KeyEntry,
}

/// The ghost form of [`SavedKey`].
#[verifier::ext_equal]
pub ghost struct SavedV {
    pub id: Seq<u8>,
    pub key: KeyEntryV,
}

impl View for SavedKey {
    type V = SavedV;

    open spec fn view(&self) -> SavedV {
        SavedV { id: self.id@, key: self.key@ }
    }
}

impl DeepView for SavedKey {
    type V = SavedV;

    open spec fn deep_view(&self) -> SavedV {
        self.view()
    }
}

/// The saved key material for `id`: the first entry with that id, if any.
pub open spec fn spec_saved_of(saved: Seq<SavedV>, id: Seq<u8>) -> Option<KeyEntryV>
    decreases saved.len(),
{
    if saved.len() == 0 {
        None
    } else if saved[0].id == id {
        Some(saved[0].key)
    } else {
        spec_saved_of(saved.drop_first(), id)
    }
}

/// The cache after saving `key` under `id`: the first entry for `id` is
/// overwritten, or a new entry is appended.
pub open spec fn spec_set_saved(saved: Seq<SavedV>, id: Seq<u8>, key: KeyEntryV) -> Seq<SavedV>
    decreases saved.len(),
{
    if saved.len() == 0 {
        seq![SavedV { id, key }]
    } else if saved[0].id == id {
        seq![SavedV { id, key }] + saved.drop_first()
    } else {
        seq![saved[0]] + spec_set_saved(saved.drop_first(), id, key)
    }
}

proof fn lemma_saved_of_found(saved: Seq<SavedV>, id: Seq<u8>, i: int)
    requires
        0 <= i < saved.len(),
        saved[i].id == id,
        forall|j: int| 0 <= j < i ==> saved[j].id != id,
    ensures
        spec_saved_of(saved, id) == Some(saved[i].key),
    decreases i,
{
    if i > 0 {
        lemma_saved_of_found(saved.drop_first(), id, i - 1);
    }
}

proof fn lemma_saved_of_missing(saved: Seq<SavedV>, id: Seq<u8>)
    requires
        forall|j: int| 0 <= j < saved.len() ==> saved[j].id != id,
    ensures
        spec_saved_of(saved, id) is None,
    decreases saved.len(),
{
    if saved.len() > 0 {
        lemma_saved_of_missing(saved.drop_first(), id);
    }
}

proof fn lemma_set_saved_found(saved: Seq<SavedV>, id: Seq<u8>, key: KeyEntryV, i: int)
    requires
        0 <= i < saved.len(),
        saved[i].id == id,
        forall|j: int| 0 <= j < i ==> saved[j].id != id,
    ensures
        spec_set_saved(saved, id, key) == saved.update(i, SavedV { id, key }),
    decreases i,
{
    if i == 0 {
        assert(seq![SavedV { id, key }] + saved.drop_first() =~= saved.update(
            0,
            SavedV { id, key },
        ));
    } else {
        lemma_set_saved_found(saved.drop_first(), id, key, i - 1);
        assert(seq![saved[0]] + saved.drop_first().update(i - 1, SavedV { id, key })
            =~= saved.update(i, SavedV { id, key }));
    }
}

proof fn lemma_set_saved_missing(saved: Seq<SavedV>, id: Seq<u8>, key: KeyEntryV)
    requires
        forall|j: int| 0 <= j < saved.len() ==> saved[j].id != id,
    ensures
        spec_set_saved(saved, id, key) == saved.push(SavedV { id, key }),
    decreases saved.len(),
{
    if saved.len() == 0 {
        assert(seq![SavedV { id, key }] =~= saved.push(SavedV { id, key }));
    } else {
        lemma_set_saved_missing(saved.drop_first(), id, key);
        assert(seq![saved[0]] + saved.drop_first().push(SavedV { id, key }) =~= saved.push(
            SavedV { id, key },
        ));
    }
}

/// Saving a key under `id` makes its lookup yield exactly that key.
pub proof fn lemma_saved_of_set(saved: Seq<SavedV>, id: Seq<u8>, key: KeyEntryV)
    ensures
        spec_saved_of(spec_set_saved(saved, id, key), id) == Some(key),
    decreases saved.len(),
{
    if saved.len() == 0 {
    } else if saved[0].id == id {
    } else {
        lemma_saved_of_set(saved.drop_first(), id, key);
        assert((seq![saved[0]] + spec_set_saved(saved.drop_first(), id, key)).drop_first()
            =~= spec_set_saved(saved.drop_first(), id, key));
    }
}

/// The persistent saved-key cache.
pub struct SavedKeyStore {
    pub entries: Vec<SavedKey>,
}

impl View for SavedKeyStore {
    type V = Seq<SavedV>;

    open spec fn view(&self) -> Seq<SavedV> {
        self.entries.deep_view()
    }
}

impl SavedKeyStore {
    pub fn new() -> (r: SavedKeyStore)
        ensures
            r@ =~= Seq::<SavedV>::empty(),
    {
        SavedKeyStore { entries: Vec::new() }
    }

    fn find_index(&self, id: &Vec<u8>) -> (r: Option<usize>)
        ensures
            match r {
                Some(i) => i < self@.len() && self@[i as int].id == id@ && (forall|j: int|
                    0 <= j < i ==> self@[j].id != id@),
                None => forall|j: int| 0 <= j < self@.len() ==> self@[j].id != id@,
            },
    {
        let mut i: usize = 0;
        while i < self.entries.len()
            invariant
                i <= self@.len(),
                forall|j: int| 0 <= j < i ==> self@[j].id != id@,
            decreases self@.len() - i,
        {
            if bytes_eq(&self.entries[i].id, id) {
                return Some(i);
            }
            i += 1;
        }
        None
    }

    /// The saved key material for `id`, if any was stored.
    pub fn lookup(&self, id: &Vec<u8>) -> (r: Option<KeyEntry>)
        ensures
            match spec_saved_of(self@, id@) {
                Some(k) => r matches Some(e) && e@ == k,
                None => r is None,
            },
    {
        let mut i: usize = 0;
        while i < self.entries.len()
            invariant
                i <= self@.len(),
                forall|j: int| 0 <= j < i ==> self@[j].id != id@,
            decreases self@.len() - i,
        {
            if bytes_eq(&self.entries[i].id, id) {
                proof {
                    lemma_saved_of_found(self@, id@, i as int);
                }
                return Some(self.entries[i].key.duplicate());
            }
            i += 1;
        }
        proof {
            lemma_saved_of_missing(self@, id@);
        }
        None
    }

    /// Store `key` under `id`, overwriting existing material for `id`.
    pub fn save(&mut self, id: &Vec<u8>, key: KeyEntry)
        ensures
            final(self)@ == spec_set_saved(old(self)@, id@, key@),
    {
        let ghost kv = key@;
        let found = self.find_index(id);
        match found {
            Some(i) => {
                let entry = SavedKey { id: copy_bytes(id), key };
                self.entries.set(i, entry);
                proof {
                    lemma_set_saved_found(old(self)@, id@, kv, i as int);
                    assert(self@ =~= old(self)@.update(i as int, SavedV { id: id@, key: kv }));
                }
            },
            None => {
                let entry = SavedKey { id: copy_bytes(id), key };
                self.entries.push(entry);
                proof {
                    lemma_set_saved_missing(old(self)@, id@, kv);
                    assert(self@ =~= old(self)@.push(SavedV { id: id@, key: kv }));
                }
            },
        }
    }
}

} // verus!
