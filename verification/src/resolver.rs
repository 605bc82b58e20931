//! Identity resolution: map an opaque identity string to a usable key id.
//!
//! Precedence with a pin: the pinned id if the keyring holds it; else a
//! fresh keyring attestation of the identity itself, which rewrites the pin;
//! else the saved-key cache for the pinned id, imported and the pin kept;
//! else the key directory queried with the pin as disambiguation suffix,
//! whose hit is imported and returned without correcting the pin. With no
//! pin: a keyring attestation or a directory hit, either of which writes
//! the first pin. Anything else is a resolution failure.

use vstd::prelude::*;

use crate::bytes::copy_bytes;
use crate::caches::{
    spec_pin_of, spec_saved_of, spec_set_pin, spec_set_saved, PinStore, PinV, SavedKeyStore, SavedV,
};
use crate::directory::{get_key, spec_get_key, spec_listing, DirElem, Directory};
use crate::errors::{ErrV, StoreError};
use crate::keyring::{
    lemma_first_match_some, spec_first_match, spec_has_key, KeyEntry, KeyEntryV, Keyring,
};

verus! {

broadcast use crate::bytes::lemma_bytes_deep_view;

/// The outcome of one resolution: the id returned or the error, and the pin
/// cache and keyring as the resolution leaves them.
#[verifier::ext_equal]
pub ghost struct ResolveOut {
    pub res: Result<Seq<u8>, ErrV>,
    pub pins: Seq<PinV>,
    pub kr: Seq<KeyEntryV>,
}

/// The ghost form of an optional directory argument.
pub open spec fn dir_view(dir: Option<&Directory>) -> Option<Directory> {
    match dir {
        Some(d) => Some(*d),
        None => None,
    }
}

/// The key material of the selected listing element.
pub open spec fn selected_key(elems: Seq<DirElem<KeyEntry>>, i: int) -> KeyEntryV {
    elems[i]->Record_0.raw_key->Some_0@
}

/// What resolving `uid` yields and how it changes the pin cache and the
/// keyring, for every combination of pin, keyring, saved-key cache and
/// directory state.
pub open spec fn spec_resolve(
    pins: Seq<PinV>,
    kr: Seq<KeyEntryV>,
    saved: Seq<SavedV>,
    dir: Option<Directory>,
    uid: Seq<u8>,
) -> ResolveOut {
    match spec_pin_of(pins, uid) {
        Some(p) => if spec_has_key(kr, p) {
            ResolveOut { res: Ok(p), pins, kr }
        } else if spec_has_key(kr, uid) {
            let id = spec_first_match(kr, uid)->Some_0.long_id;
            ResolveOut { res: Ok(id), pins: spec_set_pin(pins, uid, id), kr }
        } else if spec_saved_of(saved, p) is Some {
            ResolveOut { res: Ok(p), pins, kr: kr.push(spec_saved_of(saved, p)->Some_0) }
        } else {
            match dir {
                None => ResolveOut {
                    res: Err(ErrV::NeedsLookup { user: uid, suffix: Some(p) }),
                    pins,
                    kr,
                },
                Some(d) => {
                    let elems = spec_listing(d, uid);
                    match spec_get_key(elems, Some(p)) {
                        Some(i) => {
                            let k = selected_key(elems, i);
                            ResolveOut { res: Ok(k.long_id), pins, kr: kr.push(k) }
                        },
                        None => ResolveOut { res: Err(ErrV::UnknownKey { user: uid }), pins, kr },
                    }
                },
            }
        },
        None => if spec_has_key(kr, uid) {
            let id = spec_first_match(kr, uid)->Some_0.long_id;
            ResolveOut { res: Ok(id), pins: spec_set_pin(pins, uid, id), kr }
        } else {
            match dir {
                None => ResolveOut {
                    res: Err(ErrV::NeedsLookup { user: uid, suffix: None }),
                    pins,
                    kr,
                },
                Some(d) => {
                    let elems = spec_listing(d, uid);
                    match spec_get_key(elems, None) {
                        Some(i) => {
                            let k = selected_key(elems, i);
                            ResolveOut {
                                res: Ok(k.long_id),
                                pins: spec_set_pin(pins, uid, k.long_id),
                                kr: kr.push(k),
                            }
                        },
                        None => ResolveOut { res: Err(ErrV::UnknownKey { user: uid }), pins, kr },
                    }
                },
            }
        },
    }
}

/// Extract the key material of the element `get_key` selected.
fn take_selected(elems: &Vec<DirElem<KeyEntry>>, i: usize) -> (r: KeyEntry)
    requires
        i < elems@.len(),
        elems@[i as int] matches DirElem::Record(rec) && rec.raw_key is Some,
    ensures
        r@ == selected_key(elems@, i as int),
{
    match &elems[i] {
        DirElem::Record(rec) => match &rec.raw_key {
            Some(k) => k.duplicate(),
            None => unreached(),
        },
        DirElem::NotObject => unreached(),
    }
}

/// Resolve `uid` to a key id. `dir` carries the key-directory listings, or
/// `None` when the caller has not consulted the directory: resolution that
/// would need it then fails with the lookup it wants, changing nothing.
pub fn resolve_name(
    pins: &mut PinStore,
    kr: &mut Keyring,
    saved: &SavedKeyStore,
    dir: Option<&Directory>,
    uid: &Vec<u8>,
) -> (r: Result<Vec<u8>, StoreError>)
    ensures
        ({
            let out = spec_resolve(old(pins)@, old(kr)@, saved@, dir_view(dir), uid@);
            &&& final(pins)@ == out.pins
            &&& final(kr)@ == out.kr
            &&& match out.res {
                Ok(id) => r matches Ok(v) && v@ == id,
                Err(e) => r matches Err(x) && x@ == e,
            }
        }),
{
    let pinned = pins.lookup(uid);
    match pinned {
        Some(p) => {
            if kr.has_key(&p) {
                return Ok(p);
            }
            if kr.has_key(uid) {
                proof {
                    lemma_first_match_some(kr@, uid@);
                }
                let id = match kr.get_key_id(uid) {
                    Some(id) => id,
                    None => unreached(),
                };
                pins.write(uid, &id);
                return Ok(id);
            }
            match saved.lookup(&p) {
                Some(k) => {
                    kr.import_key(k);
                    return Ok(p);
                },
                None => {},
            }
            match dir {
                None => Err(
                    StoreError::NeedsLookup { user: copy_bytes(uid), suffix: Some(p) },
                ),
                Some(d) => {
                    match d.find_listing(uid) {
                        Some(li) => {
                            let elems = &d.listings[li].elems;
                            match get_key(elems, Some(&p)) {
                                Some(i) => {
                                    let k = take_selected(elems, i);
                                    let id = kr.import_key(k);
                                    Ok(id)
                                },
                                None => Err(StoreError::UnknownKey { user: copy_bytes(uid) }),
                            }
                        },
                        None => Err(StoreError::UnknownKey { user: copy_bytes(uid) }),
                    }
                },
            }
        },
        None => {
            if kr.has_key(uid) {
                proof {
                    lemma_first_match_some(kr@, uid@);
                }
                let id = match kr.get_key_id(uid) {
                    Some(id) => id,
                    None => unreached(),
                };
                pins.write(uid, &id);
                return Ok(id);
            }
            match dir {
                None => Err(StoreError::NeedsLookup { user: copy_bytes(uid), suffix: None }),
                Some(d) => {
                    match d.find_listing(uid) {
                        Some(li) => {
                            let elems = &d.listings[li].elems;
                            match get_key(elems, None) {
                                Some(i) => {
                                    let k = take_selected(elems, i);
                                    let id = kr.import_key(k);
                                    pins.write(uid, &id);
                                    Ok(id)
                                },
                                None => Err(StoreError::UnknownKey { user: copy_bytes(uid) }),
                            }
                        },
                        None => Err(StoreError::UnknownKey { user: copy_bytes(uid) }),
                    }
                },
            }
        },
    }
}

/// Register key material for `uid` by hand: import it, store it in the
/// saved-key cache under its derived id, and overwrite the pin for `uid` —
/// the explicit way out of an ambiguous identity.
pub fn set_key(
    pins: &mut PinStore,
    kr: &mut Keyring,
    saved: &mut SavedKeyStore,
    uid: &Vec<u8>,
    key: KeyEntry,
) ensures
    final(kr)@ == old(kr)@.push(key@),
    final(saved)@ == spec_set_saved(old(saved)@, key@.long_id, key@),
    final(pins)@ == spec_set_pin(old(pins)@, uid@, key@.long_id),
{
    let dup = key.duplicate();
    let id = kr.import_key(key);
    saved.save(&id, dup);
    pins.write(uid, &id);
}

} // verus!
