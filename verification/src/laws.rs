//! The library's laws: inheritance and override of the recipient policy,
//! idempotence and override behaviour of identity resolution, the
//! encrypt/decrypt round trip, and what tree reencryption leaves alone.

use vstd::prelude::*;

use crate::caches::{
    lemma_pin_of_set, lemma_pin_of_set_other, lemma_saved_of_set, spec_pin_of, spec_saved_of,
    spec_set_pin, spec_set_saved, PinV, SavedV,
};
use crate::directory::Directory;
use crate::keyring::{
    entry_matches, spec_all_known, spec_can_decrypt, spec_has_key, CipherV, KeyEntryV,
};
use crate::policy::{lookup_sub, spec_effective, SubV, TreeV};
use crate::resolver::{spec_resolve, ResolveOut};
use crate::store::{spec_reencrypt_files, spec_reencrypt_subdirs, spec_reencrypt_tree};
use crate::bytes::spec_hidden;

verus! {

/// The deepest directory-level override that the walk to `segs` meets: the
/// marker of the last marked directory on the way, if any. Directories the
/// walk would create contribute nothing, as created directories inherit.
pub open spec fn spec_last_override(t: TreeV, segs: Seq<Seq<u8>>) -> Option<Seq<Seq<u8>>>
    decreases segs.len(),
{
    if segs.len() <= 1 {
        None
    } else {
        match lookup_sub(t.subdirs, segs[0]) {
            None => None,
            Some(j) => {
                let sub = t.subdirs[j].tree;
                match spec_last_override(sub, segs.drop_first()) {
                    Some(m) => Some(m),
                    None => sub.marker,
                }
            },
        }
    }
}

/// The effective list is the deepest override met on the way, or the
/// starting list when no directory on the way overrides.
pub proof fn lemma_effective_is_last_override(t: TreeV, segs: Seq<Seq<u8>>, cur: Seq<Seq<u8>>)
    ensures
        spec_effective(t, segs, cur).1 == match spec_last_override(t, segs) {
            Some(m) => m,
            None => cur,
        },
    decreases segs.len(),
{
    if segs.len() <= 1 {
    } else {
        match lookup_sub(t.subdirs, segs[0]) {
            None => {
                let child = TreeV { marker: None, files: Seq::empty(), subdirs: Seq::empty() };
                lemma_effective_is_last_override(child, segs.drop_first(), cur);
                lemma_last_override_empty(child, segs.drop_first());
            },
            Some(j) => {
                let sub = t.subdirs[j].tree;
                let cur2 = match sub.marker {
                    Some(m) => m,
                    None => cur,
                };
                lemma_effective_is_last_override(sub, segs.drop_first(), cur2);
            },
        }
    }
}

/// A directory without subdirectories overrides nothing on any path.
proof fn lemma_last_override_empty(t: TreeV, segs: Seq<Seq<u8>>)
    requires
        t.subdirs.len() == 0,
    ensures
        spec_last_override(t, segs) is None,
    decreases segs.len(),
{
}

/// For any path with no directory-level override between the root and the
/// file, the effective recipient list equals the root's own list.
pub proof fn lemma_no_override_inherits_root(t: TreeV, segs: Seq<Seq<u8>>, root: Seq<Seq<u8>>)
    requires
        t.marker == Some(root),
        spec_last_override(t, segs) is None,
    ensures
        spec_effective(t, segs, root).1 == root,
{
    lemma_effective_is_last_override(t, segs, root);
}

/// If a directory on the way carries the deepest marker, the effective list
/// is that marker's list verbatim, whatever every ancestor (the root
/// included) says: override, not union.
pub proof fn lemma_override_replaces(
    t: TreeV,
    segs: Seq<Seq<u8>>,
    cur: Seq<Seq<u8>>,
    m: Seq<Seq<u8>>,
)
    requires
        spec_last_override(t, segs) == Some(m),
    ensures
        spec_effective(t, segs, cur).1 == m,
{
    lemma_effective_is_last_override(t, segs, cur);
}

/// Once a pin exists and the keyring attests the pinned id, resolution
/// returns that id and changes nothing, so repeating it returns the same
/// id with no further side effects.
pub proof fn lemma_resolve_idempotent(
    pins: Seq<PinV>,
    kr: Seq<KeyEntryV>,
    saved: Seq<SavedV>,
    dir: Option<Directory>,
    uid: Seq<u8>,
    p: Seq<u8>,
)
    requires
        spec_pin_of(pins, uid) == Some(p),
        spec_has_key(kr, p),
    ensures
        spec_resolve(pins, kr, saved, dir, uid) == (ResolveOut { res: Ok(p), pins, kr }),
        spec_resolve(
            spec_resolve(pins, kr, saved, dir, uid).pins,
            spec_resolve(pins, kr, saved, dir, uid).kr,
            saved,
            dir,
            uid,
        ) == spec_resolve(pins, kr, saved, dir, uid),
{
}

/// Registering a key for `uid` and then resolving `uid` returns exactly the
/// registered key's id, even when a different pin existed before. Every
/// other identity's pin is untouched, and the saved-key cache afterwards
/// yields the registered material under its id.
pub proof fn lemma_register_then_resolve(
    pins: Seq<PinV>,
    kr: Seq<KeyEntryV>,
    saved: Seq<SavedV>,
    dir: Option<Directory>,
    uid: Seq<u8>,
    key: KeyEntryV,
)
    ensures
        ({
            let pins2 = spec_set_pin(pins, uid, key.long_id);
            let kr2 = kr.push(key);
            let saved2 = spec_set_saved(saved, key.long_id, key);
            spec_resolve(pins2, kr2, saved2, dir, uid) == (ResolveOut {
                res: Ok(key.long_id),
                pins: pins2,
                kr: kr2,
            })
        }),
        forall|u: Seq<u8>|
            u != uid ==> #[trigger] spec_pin_of(spec_set_pin(pins, uid, key.long_id), u)
                == spec_pin_of(pins, u),
        spec_saved_of(spec_set_saved(saved, key.long_id, key), key.long_id) == Some(key),
{
    let pins2 = spec_set_pin(pins, uid, key.long_id);
    let kr2 = kr.push(key);
    lemma_pin_of_set(pins, uid, key.long_id);
    assert(kr2[kr.len() as int] == key);
    assert(entry_matches(key, key.long_id));
    assert(spec_has_key(kr2, key.long_id));
    assert forall|u: Seq<u8>| u != uid implies #[trigger] spec_pin_of(pins2, u) == spec_pin_of(
        pins,
        u,
    ) by {
        lemma_pin_of_set_other(pins, uid, key.long_id, u);
    }
    lemma_saved_of_set(saved, key.long_id, key);
}

/// The round trip: a ciphertext produced for a recipient list is opened by
/// any keyring that holds the secret key of one of those recipients, and
/// yields the original plaintext.
pub proof fn lemma_round_trip(
    kr: Seq<KeyEntryV>,
    ids: Seq<Seq<u8>>,
    payload: Seq<u8>,
    i: int,
)
    requires
        0 <= i < kr.len(),
        kr[i].secret,
        ids.contains(kr[i].long_id),
    ensures
        spec_can_decrypt(kr, CipherV { recipients: ids, payload }),
{
    let c = CipherV { recipients: ids, payload };
    assert(exists|j: int| 0 <= j < ids.len() && ids[j] == kr[i].long_id);
    let j = choose|j: int| 0 <= j < ids.len() && ids[j] == kr[i].long_id;
    assert(0 <= j < c.recipients.len() && kr[i].secret && kr[i].long_id == c.recipients[j]);
}

/// Reencrypting a directory's files keeps every file's name, skips files
/// whose names carry the reserved marker prefix untouched, and gives every
/// other file a ciphertext whose payload is unchanged.
pub proof fn lemma_reencrypt_files_skips_hidden(
    files: Seq<crate::policy::FileV>,
    ids: Seq<Seq<u8>>,
    pins: Seq<PinV>,
    kr: Seq<KeyEntryV>,
    saved: Seq<SavedV>,
    dir: Option<Directory>,
)
    ensures
        ({
            let out = spec_reencrypt_files(files, ids, pins, kr, saved, dir);
            out.res matches Ok(s) ==> s.len() == files.len() && (forall|i: int|
                0 <= i < files.len() ==> #[trigger] s[i].name == files[i].name) && (forall|i: int|
                0 <= i < files.len() && spec_hidden(files[i].name) ==> #[trigger] s[i] == files[i])
                && (forall|i: int|
                0 <= i < files.len() ==> #[trigger] s[i].data.payload == files[i].data.payload)
        }),
    decreases files,
{
    if files.len() == 0 {
    } else {
        let f = files[0];
        if spec_hidden(f.name) {
            lemma_reencrypt_files_skips_hidden(files.drop_first(), ids, pins, kr, saved, dir);
        } else {
            let ra = crate::store::spec_resolve_all(pins, kr, saved, dir, ids);
            match ra.res {
                Err(_) => {},
                Ok(_) => {
                    lemma_reencrypt_files_skips_hidden(
                        files.drop_first(),
                        ids,
                        ra.pins,
                        ra.kr,
                        saved,
                        dir,
                    );
                },
            }
        }
    }
}

/// Reencrypting a directory's subdirectories keeps every name, leaves
/// subdirectories with the reserved marker prefix entirely untouched, and
/// recurses into the others.
pub proof fn lemma_reencrypt_subdirs_skips_hidden(
    subs: Seq<SubV>,
    cur: Seq<Seq<u8>>,
    pins: Seq<PinV>,
    kr: Seq<KeyEntryV>,
    saved: Seq<SavedV>,
    dir: Option<Directory>,
)
    ensures
        ({
            let out = spec_reencrypt_subdirs(subs, cur, pins, kr, saved, dir);
            out.res matches Ok(ss) ==> ss.len() == subs.len() && (forall|i: int|
                0 <= i < subs.len() ==> #[trigger] ss[i].name == subs[i].name) && (forall|i: int|
                0 <= i < subs.len() && spec_hidden(subs[i].name) ==> #[trigger] ss[i] == subs[i])
        }),
    decreases subs,
{
    if subs.len() == 0 {
    } else {
        let s0 = subs[0];
        if spec_hidden(s0.name) {
            lemma_reencrypt_subdirs_skips_hidden(subs.drop_first(), cur, pins, kr, saved, dir);
        } else {
            let to = spec_reencrypt_tree(s0.tree, cur, pins, kr, saved, dir);
            match to.res {
                Err(_) => {},
                Ok(_) => {
                    lemma_reencrypt_subdirs_skips_hidden(
                        subs.drop_first(),
                        cur,
                        to.pins,
                        to.kr,
                        saved,
                        dir,
                    );
                },
            }
        }
    }
}

/// A subtree with its own marker is reencrypted against that marker's
/// list, not against whatever list it inherited.
pub proof fn lemma_reencrypt_tree_uses_own_marker(
    t: TreeV,
    cur: Seq<Seq<u8>>,
    other: Seq<Seq<u8>>,
    pins: Seq<PinV>,
    kr: Seq<KeyEntryV>,
    saved: Seq<SavedV>,
    dir: Option<Directory>,
)
    requires
        t.marker is Some,
    ensures
        spec_reencrypt_tree(t, cur, pins, kr, saved, dir) == spec_reencrypt_tree(
            t,
            other,
            pins,
            kr,
            saved,
            dir,
        ),
{
}

} // verus!
