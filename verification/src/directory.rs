//! The external key-directory listing and the record-selection rule applied
//! to it: given the candidate records returned for a user, pick the first
//! usable one, optionally disambiguated by a pinned key id whose trailing
//! part must name the record's short key id.
//!
//! A listing element is either a well-formed record or something else
//! entirely; the scan gives up at the first malformed element, as the
//! consumer of the wire format does.

use vstd::prelude::*;

use crate::bytes::{bytes_eq, ends_with, is_suffix_of};
use crate::keyring::KeyEntry;

verus! {

/// One candidate record from the key directory: a short key id and the raw
/// key material, either of which the service may omit.
pub struct DirRecord<K> {
    pub key_id: Option<Vec<u8>>,
    pub raw_key: Option<K>,
}

/// One element of a directory listing.
pub enum DirElem<K> {
    Record(DirRecord<K>),
    NotObject,
}

/// Whether a record can answer the query: it must carry key material, and
/// under a disambiguation suffix its key id must be present and must end
/// the suffix.
pub open spec fn elem_selectable<K>(e: DirElem<K>, suffix: Option<Seq<u8>>) -> bool {
    match e {
        DirElem::Record(r) => r.raw_key is Some && match suffix {
            None => true,
            Some(s) => r.key_id matches Some(k) && is_suffix_of(k@, s),
        },
        DirElem::NotObject => false,
    }
}

/// The index of the selected record, scanning from `i`: the first selectable
/// record, unless a malformed element is hit first.
pub open spec fn spec_get_key_from<K>(
    elems: Seq<DirElem<K>>,
    suffix: Option<Seq<u8>>,
    i: int,
) -> Option<int>
    decreases elems.len() - i,
{
    if i < 0 || i >= elems.len() {
        None
    } else if elems[i] is NotObject {
        None
    } else if elem_selectable(elems[i], suffix) {
        Some(i)
    } else {
        spec_get_key_from(elems, suffix, i + 1)
    }
}

/// The index of the record selected from the whole listing.
pub open spec fn spec_get_key<K>(elems: Seq<DirElem<K>>, suffix: Option<Seq<u8>>) -> Option<int> {
    spec_get_key_from(elems, suffix, 0)
}

/// The ghost form of an optional suffix argument.
pub open spec fn suffix_view(suffix: Option<&Vec<u8>>) -> Option<Seq<u8>> {
    match suffix {
        Some(s) => Some(s@),
        None => None,
    }
}

fn elem_selectable_exec<K>(e: &DirElem<K>, suffix: Option<&Vec<u8>>) -> (r: bool)
    ensures
        r == elem_selectable(*e, suffix_view(suffix)),
{
    match e {
        DirElem::Record(rec) => {
            if rec.raw_key.is_none() {
                return false;
            }
            match suffix {
                None => true,
                Some(s) => match &rec.key_id {
                    Some(k) => ends_with(s, k),
                    None => false,
                },
            }
        },
        DirElem::NotObject => false,
    }
}

/// Select a record from a directory listing. With no suffix, the first
/// record carrying key material wins; with a suffix, the first record whose
/// key id ends the suffix and which carries key material wins. A malformed
/// element aborts the scan with no selection.
pub fn get_key<K>(elems: &Vec<DirElem<K>>, suffix: Option<&Vec<u8>>) -> (r: Option<usize>)
    ensures
        match spec_get_key(elems@, suffix_view(suffix)) {
            Some(i) => r matches Some(j) && j == i && 0 <= i < elems@.len() && elem_selectable(
                elems@[i],
                suffix_view(suffix),
            ),
            None => r is None,
        },
{
    let ghost sv = suffix_view(suffix);
    let mut i: usize = 0;
    while i < elems.len()
        invariant
            i <= elems@.len(),
            sv == suffix_view(suffix),
            spec_get_key(elems@, sv) == spec_get_key_from(elems@, sv, i as int),
        decreases elems@.len() - i,
    {
        let e = &elems[i];
        match e {
            DirElem::NotObject => {
                return None;
            },
            DirElem::Record(_) => {},
        }
        if elem_selectable_exec(e, suffix) {
            return Some(i);
        }
        i += 1;
    }
    None
}

/// Everything the key directory returned for one user.
pub struct Listing {
    pub user: Vec<u8>,
    pub elems: Vec<DirElem<KeyEntry>>,
}

/// The key directory itself, modelled as the listings it would return per
/// user; a user absent from it gets an empty listing, indistinguishable
/// from an unreachable service.
pub struct Directory {
    pub listings: Vec<Listing>,
}

/// The listing the directory returns for `user`, scanning from `i`.
pub open spec fn spec_listing_from(ls: Seq<Listing>, user: Seq<u8>, i: int) -> Seq<
    DirElem<KeyEntry>,
>
    decreases ls.len() - i,
{
    if i < 0 || i >= ls.len() {
        Seq::empty()
    } else if ls[i].user@ == user {
        ls[i].elems@
    } else {
        spec_listing_from(ls, user, i + 1)
    }
}

/// The listing the directory returns for `user`.
pub open spec fn spec_listing(d: Directory, user: Seq<u8>) -> Seq<DirElem<KeyEntry>> {
    spec_listing_from(d.listings@, user, 0)
}

impl Directory {
    pub fn new() -> (r: Directory)
        ensures
            spec_listing_from(r.listings@, Seq::empty(), 0) =~= Seq::<DirElem<KeyEntry>>::empty(),
            r.listings@.len() == 0,
    {
        Directory { listings: Vec::new() }
    }

    /// The index of the listing for `user`, if the directory has one.
    pub fn find_listing(&self, user: &Vec<u8>) -> (r: Option<usize>)
        ensures
            match r {
                Some(i) => i < self.listings@.len() && self.listings@[i as int].user@ == user@
                    && spec_listing(*self, user@) == self.listings@[i as int].elems@,
                None => spec_listing(*self, user@) =~= Seq::<DirElem<KeyEntry>>::empty(),
            },
    {
        let mut i: usize = 0;
        while i < self.listings.len()
            invariant
                i <= self.listings@.len(),
                spec_listing(*self, user@) == spec_listing_from(self.listings@, user@, i as int),
            decreases self.listings@.len() - i,
        {
            if bytes_eq(&self.listings[i].user, user) {
                return Some(i);
            }
            i += 1;
        }
        None
    }
}

} // verus!
