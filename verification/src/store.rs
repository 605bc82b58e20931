//! The store orchestrator: encrypt to a path, decrypt from a path, and
//! reencrypt a file or a whole subtree against freshly computed recipients.
//! Recipients come from the policy walk, key ids from the resolver, and the
//! ciphertext transformation from the keyring model; each operation's exact
//! effect on the tree, the pin cache and the keyring is a spec function.

use vstd::prelude::*;

use crate::bytes::{bytes_eq, copy_bytes, copy_ids, is_hidden, spec_hidden};
use crate::caches::{PinStore, PinV, SavedKeyStore, SavedV};
use crate::directory::Directory;
use crate::errors::{ErrV, StoreError};
use crate::keyring::{
    spec_all_known, spec_can_decrypt, Cipher, CipherV, KeyEntryV, Keyring,
};
use crate::policy::{
    chosen_ids, create_sub_dir, effective_recipients, files_view, find_subdir_pub, lookup_sub,
    spec_create, spec_effective, subdirs_view, subs_height, tree_height, tree_view, DirTree,
    FileEntry, FileV, SubDir, SubV, TreeV,
};
use crate::resolver::{dir_view, resolve_name, spec_resolve};

verus! {

broadcast use crate::bytes::lemma_bytes_deep_view;

/// The outcome of resolving a whole recipient list, in order, each entry
/// seeing the state the previous one left.
#[verifier::ext_equal]
pub ghost struct ResolveAllOut {
    pub res: Result<Seq<Seq<u8>>, ErrV>,
    pub pins: Seq<PinV>,
    pub kr: Seq<KeyEntryV>,
}

/// Resolve `ids[i..]` in order, stopping at the first failure.
pub open spec fn spec_resolve_all_from(
    pins: Seq<PinV>,
    kr: Seq<KeyEntryV>,
    saved: Seq<SavedV>,
    dir: Option<Directory>,
    ids: Seq<Seq<u8>>,
    i: int,
) -> ResolveAllOut
    decreases ids.len() - i,
{
    if i < 0 || i >= ids.len() {
        ResolveAllOut { res: Ok(Seq::empty()), pins, kr }
    } else {
        let r0 = spec_resolve(pins, kr, saved, dir, ids[i]);
        match r0.res {
            Err(e) => ResolveAllOut { res: Err(e), pins: r0.pins, kr: r0.kr },
            Ok(id) => {
                let rest = spec_resolve_all_from(r0.pins, r0.kr, saved, dir, ids, i + 1);
                match rest.res {
                    Ok(s) => ResolveAllOut {
                        res: Ok(seq![id] + s),
                        pins: rest.pins,
                        kr: rest.kr,
                    },
                    Err(e) => ResolveAllOut { res: Err(e), pins: rest.pins, kr: rest.kr },
                }
            },
        }
    }
}

/// Resolve a whole recipient list, in order.
pub open spec fn spec_resolve_all(
    pins: Seq<PinV>,
    kr: Seq<KeyEntryV>,
    saved: Seq<SavedV>,
    dir: Option<Directory>,
    ids: Seq<Seq<u8>>,
) -> ResolveAllOut {
    spec_resolve_all_from(pins, kr, saved, dir, ids, 0)
}

fn resolve_all_from(
    pins: &mut PinStore,
    kr: &mut Keyring,
    saved: &SavedKeyStore,
    dir: Option<&Directory>,
    ids: &Vec<Vec<u8>>,
    i: usize,
) -> (r: Result<Vec<Vec<u8>>, StoreError>)
    requires
        i <= ids@.len(),
    ensures
        ({
            let out = spec_resolve_all_from(
                old(pins)@,
                old(kr)@,
                saved@,
                dir_view(dir),
                ids.deep_view(),
                i as int,
            );
            &&& final(pins)@ == out.pins
            &&& final(kr)@ == out.kr
            &&& match out.res {
                Ok(s) => r matches Ok(v) && v.deep_view() == s,
                Err(e) => r matches Err(x) && x@ == e,
            }
        }),
    decreases ids@.len() - i,
{
    if i == ids.len() {
        let empty: Vec<Vec<u8>> = Vec::new();
        proof {
            assert(empty.deep_view() =~~= Seq::<Seq<u8>>::empty());
        }
        return Ok(empty);
    }
    proof {
        assert(ids.deep_view()[i as int] == ids@[i as int]@);
    }
    let id = match resolve_name(pins, kr, saved, dir, &ids[i]) {
        Ok(id) => id,
        Err(e) => {
            return Err(e);
        },
    };
    let mut rest = match resolve_all_from(pins, kr, saved, dir, ids, i + 1) {
        Ok(v) => v,
        Err(e) => {
            return Err(e);
        },
    };
    let ghost restv = rest.deep_view();
    rest.insert(0, id);
    proof {
        assert(rest.deep_view() =~~= seq![id@] + restv);
    }
    Ok(rest)
}

/// Resolve every identifier of a recipient list to a key id, in order,
/// stopping at the first identifier no strategy can resolve.
pub fn resolve_all(
    pins: &mut PinStore,
    kr: &mut Keyring,
    saved: &SavedKeyStore,
    dir: Option<&Directory>,
    ids: &Vec<Vec<u8>>,
) -> (r: Result<Vec<Vec<u8>>, StoreError>)
    ensures
        ({
            let out = spec_resolve_all(old(pins)@, old(kr)@, saved@, dir_view(dir), ids.deep_view());
            &&& final(pins)@ == out.pins
            &&& final(kr)@ == out.kr
            &&& match out.res {
                Ok(s) => r matches Ok(v) && v.deep_view() == s,
                Err(e) => r matches Err(x) && x@ == e,
            }
        }),
{
    resolve_all_from(pins, kr, saved, dir, ids, 0)
}

/// The index of the first file named `name`, scanning from `i`.
pub open spec fn lookup_file_from(files: Seq<FileV>, name: Seq<u8>, i: int) -> Option<int>
    decreases files.len() - i,
{
    if i < 0 || i >= files.len() {
        None
    } else if files[i].name == name {
        Some(i)
    } else {
        lookup_file_from(files, name, i + 1)
    }
}

/// The index of the first file named `name`.
pub open spec fn lookup_file(files: Seq<FileV>, name: Seq<u8>) -> Option<int> {
    lookup_file_from(files, name, 0)
}

/// The ciphertext stored at `segs` under `t`, if the whole path exists.
pub open spec fn spec_get_file(t: TreeV, segs: Seq<Seq<u8>>) -> Option<CipherV>
    decreases segs.len(),
{
    if segs.len() == 0 {
        None
    } else if segs.len() == 1 {
        match lookup_file(t.files, segs[0]) {
            Some(i) => Some(t.files[i].data),
            None => None,
        }
    } else {
        match lookup_sub(t.subdirs, segs[0]) {
            Some(j) => spec_get_file(t.subdirs[j].tree, segs.drop_first()),
            None => None,
        }
    }
}

/// The file list after writing `c` under `name`: the first file of that
/// name is overwritten, or a new file is appended.
pub open spec fn spec_set_file(files: Seq<FileV>, name: Seq<u8>, c: CipherV) -> Seq<FileV>
    decreases files.len(),
{
    if files.len() == 0 {
        seq![FileV { name, data: c }]
    } else if files[0].name == name {
        seq![FileV { name, data: c }] + files.drop_first()
    } else {
        seq![files[0]] + spec_set_file(files.drop_first(), name, c)
    }
}

/// The tree after writing ciphertext `c` at `segs`, creating missing
/// directories on the way.
pub open spec fn spec_put_file(t: TreeV, segs: Seq<Seq<u8>>, c: CipherV) -> TreeV
    decreases segs.len(),
{
    if segs.len() == 0 {
        t
    } else if segs.len() == 1 {
        TreeV { marker: t.marker, files: spec_set_file(t.files, segs[0], c), subdirs: t.subdirs }
    } else {
        match lookup_sub(t.subdirs, segs[0]) {
            None => {
                let child = TreeV { marker: None, files: Seq::empty(), subdirs: Seq::empty() };
                TreeV {
                    marker: t.marker,
                    files: t.files,
                    subdirs: t.subdirs.push(
                        SubV { name: segs[0], tree: spec_put_file(child, segs.drop_first(), c) },
                    ),
                }
            },
            Some(j) => TreeV {
                marker: t.marker,
                files: t.files,
                subdirs: t.subdirs.update(
                    j,
                    SubV {
                        name: segs[0],
                        tree: spec_put_file(t.subdirs[j].tree, segs.drop_first(), c),
                    },
                ),
            },
        }
    }
}


proof fn lemma_set_file_found(files: Seq<FileV>, name: Seq<u8>, c: CipherV, i: int)
    requires
        0 <= i < files.len(),
        files[i].name == name,
        forall|j: int| 0 <= j < i ==> files[j].name != name,
    ensures
        spec_set_file(files, name, c) == files.update(i, FileV { name, data: c }),
    decreases i,
{
    if i == 0 {
        assert(seq![FileV { name, data: c }] + files.drop_first() =~= files.update(
            0,
            FileV { name, data: c },
        ));
    } else {
        lemma_set_file_found(files.drop_first(), name, c, i - 1);
        assert(seq![files[0]] + files.drop_first().update(i - 1, FileV { name, data: c })
            =~= files.update(i, FileV { name, data: c }));
    }
}

proof fn lemma_set_file_missing(files: Seq<FileV>, name: Seq<u8>, c: CipherV)
    requires
        forall|j: int| 0 <= j < files.len() ==> files[j].name != name,
    ensures
        spec_set_file(files, name, c) == files.push(FileV { name, data: c }),
    decreases files.len(),
{
    if files.len() == 0 {
        assert(seq![FileV { name, data: c }] =~= files.push(FileV { name, data: c }));
    } else {
        lemma_set_file_missing(files.drop_first(), name, c);
        assert(seq![files[0]] + files.drop_first().push(FileV { name, data: c }) =~= files.push(
            FileV { name, data: c },
        ));
    }
}

fn find_file(t: &DirTree, name: &Vec<u8>) -> (r: Option<usize>)
    ensures
        match lookup_file(t@.files, name@) {
            Some(i) => r matches Some(u) && u == i && 0 <= i < t.files@.len() && t@.files[i].name
                == name@ && (forall|j: int| 0 <= j < i ==> t@.files[j].name != name@),
            None => r is None && (forall|j: int|
                0 <= j < t@.files.len() ==> t@.files[j].name != name@),
        },
{
    let mut i: usize = 0;
    while i < t.files.len()
        invariant
            i <= t.files@.len(),
            lookup_file(t@.files, name@) == lookup_file_from(t@.files, name@, i as int),
            forall|j: int| 0 <= j < i ==> t@.files[j].name != name@,
        decreases t.files@.len() - i,
    {
        if bytes_eq(&t.files[i].name, name) {
            return Some(i);
        }
        i += 1;
    }
    None
}

fn put_file_at(t: &mut DirTree, segs: &Vec<Vec<u8>>, i: usize, c: Cipher)
    requires
        i < segs@.len(),
    ensures
        final(t)@ == spec_put_file(old(t)@, segs.deep_view().skip(i as int), c@),
    decreases segs@.len() - i,
{
    let ghost gsegs = segs.deep_view().skip(i as int);
    proof {
        assert(gsegs[0] == segs.deep_view()[i as int]);
        assert(segs.deep_view()[i as int] == segs@[i as int]@);
    }
    let name = &segs[i];
    if segs.len() - i == 1 {
        let ghost cv = c@;
        let entry = FileEntry { name: copy_bytes(name), data: c };
        match find_file(t, name) {
            Some(fi) => {
                t.files.set(fi, entry);
                proof {
                    lemma_set_file_found(old(t)@.files, name@, cv, fi as int);
                    assert(t@.files =~~= old(t)@.files.update(
                        fi as int,
                        FileV { name: name@, data: cv },
                    ));
                }
            },
            None => {
                t.files.push(entry);
                proof {
                    lemma_set_file_missing(old(t)@.files, name@, cv);
                    assert(t@.files =~~= old(t)@.files.push(FileV { name: name@, data: cv }));
                }
            },
        }
        proof {
            assert(t@.subdirs =~~= old(t)@.subdirs);
            assert(t@.marker == old(t)@.marker);
            assert(t@ =~~= spec_put_file(old(t)@, gsegs, cv));
        }
        return ;
    }
    proof {
        assert(gsegs.drop_first() =~= segs.deep_view().skip(i + 1));
    }
    match find_subdir_pub(t, name) {
        None => {
            let mut child = DirTree { marker: None, files: Vec::new(), subdirs: Vec::new() };
            proof {
                crate::policy::lemma_subdirs_view_len(child.subdirs@);
                assert(child@ =~~= (TreeV {
                    marker: None,
                    files: Seq::empty(),
                    subdirs: Seq::empty(),
                }));
            }
            put_file_at(&mut child, segs, i + 1, c);
            let entry = SubDir { name: copy_bytes(name), tree: child };
            let ghost ent = entry;
            t.subdirs.push(entry);
            proof {
                crate::policy::lemma_subdirs_view_push(old(t).subdirs@, ent);
                assert(t@.subdirs =~~= old(t)@.subdirs.push(
                    SubV { name: name@, tree: ent.tree@ },
                ));
                assert(t@.files =~~= old(t)@.files);
                assert(t@ =~~= spec_put_file(old(t)@, gsegs, c@));
            }
        },
        Some(j) => {
            proof {
                crate::policy::lemma_subdirs_view_len(t.subdirs@);
            }
            let mut sd = t.subdirs.remove(j);
            proof {
                crate::policy::lemma_subdirs_view_index(old(t).subdirs@, j as int);
                assert(old(t)@.subdirs[j as int] == (SubV { name: sd.name@, tree: sd.tree@ }));
            }
            put_file_at(&mut sd.tree, segs, i + 1, c);
            let ghost ent = sd;
            t.subdirs.insert(j, sd);
            proof {
                assert(t.subdirs@ =~= old(t).subdirs@.update(j as int, ent));
                crate::policy::lemma_subdirs_view_update(old(t).subdirs@, j as int, ent);
                assert(t@.subdirs =~~= old(t)@.subdirs.update(
                    j as int,
                    SubV { name: name@, tree: ent.tree@ },
                ));
                assert(t@.files =~~= old(t)@.files);
                assert(t@ =~~= spec_put_file(old(t)@, gsegs, c@));
            }
        },
    }
}

/// A copy of the ciphertext stored at `segs[i..]` under `t`, if the whole
/// path exists.
fn get_file_at(t: &DirTree, segs: &Vec<Vec<u8>>, i: usize) -> (r: Option<Cipher>)
    requires
        i < segs@.len(),
    ensures
        match spec_get_file(t@, segs.deep_view().skip(i as int)) {
            Some(c) => r matches Some(v) && v@ == c,
            None => r is None,
        },
    decreases segs@.len() - i,
{
    let ghost gsegs = segs.deep_view().skip(i as int);
    proof {
        assert(gsegs[0] == segs.deep_view()[i as int]);
        assert(segs.deep_view()[i as int] == segs@[i as int]@);
    }
    let name = &segs[i];
    if segs.len() - i == 1 {
        match find_file(t, name) {
            Some(fi) => {
                return Some(t.files[fi].data.duplicate());
            },
            None => {
                return None;
            },
        }
    }
    proof {
        assert(gsegs.drop_first() =~= segs.deep_view().skip(i + 1));
    }
    match find_subdir_pub(t, name) {
        None => None,
        Some(j) => {
            proof {
                crate::policy::lemma_subdirs_view_len(t.subdirs@);
                crate::policy::lemma_subdirs_view_index(t.subdirs@, j as int);
            }
            get_file_at(&t.subdirs[j].tree, segs, i + 1)
        },
    }
}


/// The outcome of reencrypting a list of files.
#[verifier::ext_equal]
pub ghost struct FilesOut {
    pub res: Result<Seq<FileV>, ErrV>,
    pub pins: Seq<PinV>,
    pub kr: Seq<KeyEntryV>,
}

/// The outcome of reencrypting a list of subdirectories.
#[verifier::ext_equal]
pub ghost struct SubsOut {
    pub res: Result<Seq<SubV>, ErrV>,
    pub pins: Seq<PinV>,
    pub kr: Seq<KeyEntryV>,
}

/// The outcome of reencrypting a whole subtree.
#[verifier::ext_equal]
pub ghost struct TreeOut {
    pub res: Result<TreeV, ErrV>,
    pub pins: Seq<PinV>,
    pub kr: Seq<KeyEntryV>,
}

/// Reencrypt the files of one directory against `ids`, in order. Hidden
/// names (the reserved marker prefix) are skipped untouched; each other
/// file has the whole recipient list resolved afresh, is decrypted, and is
/// encrypted for the resolved key ids.
pub open spec fn spec_reencrypt_files(
    files: Seq<FileV>,
    ids: Seq<Seq<u8>>,
    pins: Seq<PinV>,
    kr: Seq<KeyEntryV>,
    saved: Seq<SavedV>,
    dir: Option<Directory>,
) -> FilesOut
    decreases files,
{
    if files.len() == 0 {
        FilesOut { res: Ok(Seq::empty()), pins, kr }
    } else {
        let f = files[0];
        if spec_hidden(f.name) {
            let rest = spec_reencrypt_files(files.drop_first(), ids, pins, kr, saved, dir);
            match rest.res {
                Ok(s) => FilesOut { res: Ok(seq![f] + s), pins: rest.pins, kr: rest.kr },
                Err(e) => FilesOut { res: Err(e), pins: rest.pins, kr: rest.kr },
            }
        } else {
            let ra = spec_resolve_all(pins, kr, saved, dir, ids);
            match ra.res {
                Err(e) => FilesOut { res: Err(e), pins: ra.pins, kr: ra.kr },
                Ok(keys) => if !spec_can_decrypt(ra.kr, f.data) {
                    FilesOut { res: Err(ErrV::DecryptionFailed), pins: ra.pins, kr: ra.kr }
                } else if !spec_all_known(ra.kr, keys) {
                    FilesOut { res: Err(ErrV::EncryptionFailed), pins: ra.pins, kr: ra.kr }
                } else {
                    let f2 = FileV {
                        name: f.name,
                        data: CipherV { recipients: keys, payload: f.data.payload },
                    };
                    let rest = spec_reencrypt_files(
                        files.drop_first(),
                        ids,
                        ra.pins,
                        ra.kr,
                        saved,
                        dir,
                    );
                    match rest.res {
                        Ok(s) => FilesOut { res: Ok(seq![f2] + s), pins: rest.pins, kr: rest.kr },
                        Err(e) => FilesOut { res: Err(e), pins: rest.pins, kr: rest.kr },
                    }
                },
            }
        }
    }
}

/// Reencrypt a directory's subdirectories in order, each against the
/// effective list `cur` as its own marker may override it. Hidden names
/// are skipped untouched.
pub open spec fn spec_reencrypt_subdirs(
    subs: Seq<SubV>,
    cur: Seq<Seq<u8>>,
    pins: Seq<PinV>,
    kr: Seq<KeyEntryV>,
    saved: Seq<SavedV>,
    dir: Option<Directory>,
) -> SubsOut
    decreases subs,
{
    if subs.len() == 0 {
        SubsOut { res: Ok(Seq::empty()), pins, kr }
    } else {
        let s0 = subs[0];
        if spec_hidden(s0.name) {
            let rest = spec_reencrypt_subdirs(subs.drop_first(), cur, pins, kr, saved, dir);
            match rest.res {
                Ok(ss) => SubsOut { res: Ok(seq![s0] + ss), pins: rest.pins, kr: rest.kr },
                Err(e) => SubsOut { res: Err(e), pins: rest.pins, kr: rest.kr },
            }
        } else {
            let to = spec_reencrypt_tree(s0.tree, cur, pins, kr, saved, dir);
            match to.res {
                Err(e) => SubsOut { res: Err(e), pins: to.pins, kr: to.kr },
                Ok(t2) => {
                    let rest = spec_reencrypt_subdirs(
                        subs.drop_first(),
                        cur,
                        to.pins,
                        to.kr,
                        saved,
                        dir,
                    );
                    match rest.res {
                        Ok(ss) => SubsOut {
                            res: Ok(seq![SubV { name: s0.name, tree: t2 }] + ss),
                            pins: rest.pins,
                            kr: rest.kr,
                        },
                        Err(e) => SubsOut { res: Err(e), pins: rest.pins, kr: rest.kr },
                    }
                },
            }
        }
    }
}

/// Reencrypt a whole subtree: its marker, if any, overrides the inherited
/// list for everything inside; files come first, then subdirectories.
pub open spec fn spec_reencrypt_tree(
    t: TreeV,
    cur: Seq<Seq<u8>>,
    pins: Seq<PinV>,
    kr: Seq<KeyEntryV>,
    saved: Seq<SavedV>,
    dir: Option<Directory>,
) -> TreeOut
    decreases t,
{
    let ids = match t.marker {
        Some(m) => m,
        None => cur,
    };
    let fo = spec_reencrypt_files(t.files, ids, pins, kr, saved, dir);
    match fo.res {
        Err(e) => TreeOut { res: Err(e), pins: fo.pins, kr: fo.kr },
        Ok(files2) => {
            let so = spec_reencrypt_subdirs(t.subdirs, ids, fo.pins, fo.kr, saved, dir);
            match so.res {
                Err(e) => TreeOut { res: Err(e), pins: so.pins, kr: so.kr },
                Ok(subs2) => TreeOut {
                    res: Ok(TreeV { marker: t.marker, files: files2, subdirs: subs2 }),
                    pins: so.pins,
                    kr: so.kr,
                },
            }
        },
    }
}

fn reencrypt_files_exec(
    files: Vec<FileEntry>,
    ids: &Vec<Vec<u8>>,
    pins: &mut PinStore,
    kr: &mut Keyring,
    saved: &SavedKeyStore,
    dir: Option<&Directory>,
) -> (r: (Vec<FileEntry>, Option<StoreError>))
    ensures
        ({
            let out = spec_reencrypt_files(
                files_view(files@),
                ids.deep_view(),
                old(pins)@,
                old(kr)@,
                saved@,
                dir_view(dir),
            );
            &&& final(pins)@ == out.pins
            &&& final(kr)@ == out.kr
            &&& match out.res {
                Ok(s) => r.1 is None && files_view(r.0@) == s,
                Err(e) => r.1 matches Some(x) && x@ == e,
            }
        }),
    decreases files@.len(),
{
    let ghost fv = files_view(files@);
    let mut files = files;
    if files.len() == 0 {
        proof {
            assert(files_view(files@) =~~= Seq::<FileV>::empty());
        }
        return (files, None);
    }
    let f = files.remove(0);
    let ghost f0 = FileV { name: f.name@, data: f.data@ };
    proof {
        assert(fv[0] == f0);
        assert(files_view(files@) =~~= fv.drop_first());
    }
    if is_hidden(&f.name) {
        let (mut rest, err) = reencrypt_files_exec(files, ids, pins, kr, saved, dir);
        let ghost restv = files_view(rest@);
        rest.insert(0, f);
        proof {
            assert(files_view(rest@) =~~= seq![f0] + restv);
        }
        (rest, err)
    } else {
        let keys = match resolve_all(pins, kr, saved, dir, ids) {
            Ok(v) => v,
            Err(e) => {
                files.insert(0, f);
                return (files, Some(e));
            },
        };
        let ghost keysv = keys.deep_view();
        let nc = match kr.reencrypt(&f.data, keys) {
            Ok(c) => c,
            Err(e) => {
                files.insert(0, f);
                return (files, Some(e));
            },
        };
        let nf = FileEntry { name: f.name, data: nc };
        let ghost f2 = FileV {
            name: f0.name,
            data: CipherV { recipients: keysv, payload: f0.data.payload },
        };
        let (mut rest, err) = reencrypt_files_exec(files, ids, pins, kr, saved, dir);
        let ghost restv = files_view(rest@);
        rest.insert(0, nf);
        proof {
            assert(files_view(rest@) =~~= seq![f2] + restv);
        }
        (rest, err)
    }
}

fn reencrypt_subdirs_exec(
    subs: Vec<SubDir>,
    cur: &Vec<Vec<u8>>,
    pins: &mut PinStore,
    kr: &mut Keyring,
    saved: &SavedKeyStore,
    dir: Option<&Directory>,
) -> (r: (Vec<SubDir>, Option<StoreError>))
    ensures
        ({
            let out = spec_reencrypt_subdirs(
                subdirs_view(subs@),
                cur.deep_view(),
                old(pins)@,
                old(kr)@,
                saved@,
                dir_view(dir),
            );
            &&& final(pins)@ == out.pins
            &&& final(kr)@ == out.kr
            &&& match out.res {
                Ok(s) => r.1 is None && subdirs_view(r.0@) == s,
                Err(e) => r.1 matches Some(x) && x@ == e,
            }
        }),
    decreases subs_height(subdirs_view(subs@)), subs@.len() as int,
{
    let ghost osubs = subs@;
    let ghost sv = subdirs_view(osubs);
    let mut subs = subs;
    if subs.len() == 0 {
        proof {
            assert(subdirs_view(subs@) =~~= Seq::<SubV>::empty());
        }
        return (subs, None);
    }
    let s0 = subs.remove(0);
    let ghost s0v = SubV { name: s0.name@, tree: s0.tree@ };
    proof {
        assert(subs@ =~= osubs.drop_first());
        assert(sv[0] == s0v);
        assert(sv.drop_first() =~= subdirs_view(subs@));
        crate::policy::lemma_subs_height_bound(sv, 0);
    }
    if is_hidden(&s0.name) {
        let (mut rest, err) = reencrypt_subdirs_exec(subs, cur, pins, kr, saved, dir);
        let ghost prev = rest@;
        let ghost restv = subdirs_view(rest@);
        let ghost gs0 = s0;
        rest.insert(0, s0);
        proof {
            assert(rest@[0] == gs0);
            assert(rest@.drop_first() =~= prev);
            assert(subdirs_view(rest@) =~~= seq![s0v] + restv);
        }
        (rest, err)
    } else {
        let SubDir { name, tree } = s0;
        let (nt, terr) = reencrypt_tree_exec(tree, cur, pins, kr, saved, dir);
        match terr {
            Some(e) => {
                subs.insert(0, SubDir { name, tree: nt });
                return (subs, Some(e));
            },
            None => {},
        }
        let ghost ntv = nt@;
        let (mut rest, err) = reencrypt_subdirs_exec(subs, cur, pins, kr, saved, dir);
        let ghost prev = rest@;
        let ghost restv = subdirs_view(rest@);
        let entry = SubDir { name, tree: nt };
        let ghost gent = entry;
        rest.insert(0, entry);
        proof {
            assert(rest@[0] == gent);
            assert(rest@.drop_first() =~= prev);
            assert(subdirs_view(rest@) =~~= seq![SubV { name: s0v.name, tree: ntv }] + restv);
        }
        (rest, err)
    }
}

fn reencrypt_tree_exec(
    t: DirTree,
    cur: &Vec<Vec<u8>>,
    pins: &mut PinStore,
    kr: &mut Keyring,
    saved: &SavedKeyStore,
    dir: Option<&Directory>,
) -> (r: (DirTree, Option<StoreError>))
    ensures
        ({
            let out = spec_reencrypt_tree(
                t@,
                cur.deep_view(),
                old(pins)@,
                old(kr)@,
                saved@,
                dir_view(dir),
            );
            &&& final(pins)@ == out.pins
            &&& final(kr)@ == out.kr
            &&& match out.res {
                Ok(t2) => r.1 is None && r.0@ == t2,
                Err(e) => r.1 matches Some(x) && x@ == e,
            }
        }),
    decreases tree_height(tree_view(t)), 0int,
{
    let ghost tv = t@;
    let DirTree { marker, files, subdirs } = t;
    let ids: Vec<Vec<u8>> = match &marker {
        Some(m) => copy_ids(m),
        None => copy_ids(cur),
    };
    proof {
        assert(files_view(files@) == tv.files);
        assert(subdirs_view(subdirs@) == tv.subdirs);
        match &marker {
            Some(m) => {
                assert(tv.marker == Some(m.deep_view()));
            },
            None => {
                assert(tv.marker is None);
            },
        }
    }
    let (files2, ferr) = reencrypt_files_exec(files, &ids, pins, kr, saved, dir);
    match ferr {
        Some(e) => {
            // A failure leaves the files processed so far rewritten and
            // everything from the failing file onward untouched.
            return (DirTree { marker, files: files2, subdirs }, Some(e));
        },
        None => {},
    }
    let (subs2, serr) = reencrypt_subdirs_exec(subdirs, &ids, pins, kr, saved, dir);
    let nt = DirTree { marker, files: files2, subdirs: subs2 };
    match serr {
        Some(e) => (nt, Some(e)),
        None => {
            proof {
                assert(nt@.marker == tv.marker);
                assert(nt@.files == files_view(nt.files@));
                assert(nt@.subdirs == subdirs_view(nt.subdirs@));
            }
            (nt, None)
        },
    }
}

/// The outcome of a whole store operation.
#[verifier::ext_equal]
pub ghost struct StoreOut {
    pub res: Result<(), ErrV>,
    pub tree: TreeV,
    pub pins: Seq<PinV>,
    pub kr: Seq<KeyEntryV>,
}

/// What encrypting `contents` to `segs` does: walk the policy (creating
/// directories), resolve every recipient, and write the ciphertext, each
/// stage failing exactly as its own contract says.
pub open spec fn spec_encrypt_op(
    t: TreeV,
    pins: Seq<PinV>,
    kr: Seq<KeyEntryV>,
    saved: Seq<SavedV>,
    dir: Option<Directory>,
    segs: Seq<Seq<u8>>,
    contents: Seq<u8>,
) -> StoreOut {
    match t.marker {
        None => StoreOut { res: Err(ErrV::MissingRootPolicy), tree: t, pins, kr },
        Some(root) => {
            let walk = spec_effective(t, segs, root);
            let ra = spec_resolve_all(pins, kr, saved, dir, walk.1);
            match ra.res {
                Err(e) => StoreOut { res: Err(e), tree: walk.0, pins: ra.pins, kr: ra.kr },
                Ok(keys) => if spec_all_known(ra.kr, keys) {
                    StoreOut {
                        res: Ok(()),
                        tree: spec_put_file(
                            walk.0,
                            segs,
                            CipherV { recipients: keys, payload: contents },
                        ),
                        pins: ra.pins,
                        kr: ra.kr,
                    }
                } else {
                    StoreOut {
                        res: Err(ErrV::EncryptionFailed),
                        tree: walk.0,
                        pins: ra.pins,
                        kr: ra.kr,
                    }
                },
            }
        },
    }
}

/// What reencrypting the single file at `segs` does: recompute recipients
/// exactly as encryption does, decrypt the stored ciphertext, and overwrite
/// it encrypted for the freshly resolved key ids.
pub open spec fn spec_reencrypt_file_op(
    t: TreeV,
    pins: Seq<PinV>,
    kr: Seq<KeyEntryV>,
    saved: Seq<SavedV>,
    dir: Option<Directory>,
    segs: Seq<Seq<u8>>,
) -> StoreOut {
    match t.marker {
        None => StoreOut { res: Err(ErrV::MissingRootPolicy), tree: t, pins, kr },
        Some(root) => {
            let walk = spec_effective(t, segs, root);
            let ra = spec_resolve_all(pins, kr, saved, dir, walk.1);
            match ra.res {
                Err(e) => StoreOut { res: Err(e), tree: walk.0, pins: ra.pins, kr: ra.kr },
                Ok(keys) => match spec_get_file(walk.0, segs) {
                    None => StoreOut {
                        res: Err(ErrV::MissingPath),
                        tree: walk.0,
                        pins: ra.pins,
                        kr: ra.kr,
                    },
                    Some(c) => if !spec_can_decrypt(ra.kr, c) {
                        StoreOut {
                            res: Err(ErrV::DecryptionFailed),
                            tree: walk.0,
                            pins: ra.pins,
                            kr: ra.kr,
                        }
                    } else if !spec_all_known(ra.kr, keys) {
                        StoreOut {
                            res: Err(ErrV::EncryptionFailed),
                            tree: walk.0,
                            pins: ra.pins,
                            kr: ra.kr,
                        }
                    } else {
                        StoreOut {
                            res: Ok(()),
                            tree: spec_put_file(
                                walk.0,
                                segs,
                                CipherV { recipients: keys, payload: c.payload },
                            ),
                            pins: ra.pins,
                            kr: ra.kr,
                        }
                    },
                },
            }
        },
    }
}

/// Reencrypt the subtree at `segs`: descend, letting each directory's
/// marker override the inherited list, then reencrypt everything below.
pub open spec fn spec_reencrypt_at(
    t: TreeV,
    segs: Seq<Seq<u8>>,
    cur: Seq<Seq<u8>>,
    pins: Seq<PinV>,
    kr: Seq<KeyEntryV>,
    saved: Seq<SavedV>,
    dir: Option<Directory>,
) -> TreeOut
    decreases segs.len(),
{
    if segs.len() == 0 {
        spec_reencrypt_tree(t, cur, pins, kr, saved, dir)
    } else {
        match lookup_sub(t.subdirs, segs[0]) {
            None => TreeOut { res: Err(ErrV::MissingPath), pins, kr },
            Some(j) => {
                let sub = t.subdirs[j].tree;
                let cur2 = match sub.marker {
                    Some(m) => m,
                    None => cur,
                };
                let rec = spec_reencrypt_at(sub, segs.drop_first(), cur2, pins, kr, saved, dir);
                match rec.res {
                    Ok(s2) => TreeOut {
                        res: Ok(
                            TreeV {
                                marker: t.marker,
                                files: t.files,
                                subdirs: t.subdirs.update(j, SubV { name: segs[0], tree: s2 }),
                            },
                        ),
                        pins: rec.pins,
                        kr: rec.kr,
                    },
                    Err(e) => TreeOut { res: Err(e), pins: rec.pins, kr: rec.kr },
                }
            },
        }
    }
}

fn reencrypt_at_exec(
    t: &mut DirTree,
    segs: &Vec<Vec<u8>>,
    i: usize,
    cur: Vec<Vec<u8>>,
    pins: &mut PinStore,
    kr: &mut Keyring,
    saved: &SavedKeyStore,
    dir: Option<&Directory>,
) -> (r: Result<(), StoreError>)
    requires
        i <= segs@.len(),
    ensures
        ({
            let out = spec_reencrypt_at(
                old(t)@,
                segs.deep_view().skip(i as int),
                cur.deep_view(),
                old(pins)@,
                old(kr)@,
                saved@,
                dir_view(dir),
            );
            &&& final(pins)@ == out.pins
            &&& final(kr)@ == out.kr
            &&& match out.res {
                Ok(t2) => r is Ok && final(t)@ == t2,
                Err(e) => r matches Err(x) && x@ == e,
            }
        }),
    decreases segs@.len() - i,
{
    let ghost gsegs = segs.deep_view().skip(i as int);
    if i == segs.len() {
        let mut taken = DirTree { marker: None, files: Vec::new(), subdirs: Vec::new() };
        core::mem::swap(&mut taken, t);
        let (nt, err) = reencrypt_tree_exec(taken, &cur, pins, kr, saved, dir);
        *t = nt;
        return match err {
            None => Ok(()),
            Some(e) => Err(e),
        };
    }
    proof {
        assert(gsegs[0] == segs.deep_view()[i as int]);
        assert(segs.deep_view()[i as int] == segs@[i as int]@);
        assert(gsegs.drop_first() =~= segs.deep_view().skip(i + 1));
    }
    let name = &segs[i];
    match find_subdir_pub(t, name) {
        None => Err(StoreError::MissingPath),
        Some(j) => {
            proof {
                crate::policy::lemma_subdirs_view_len(t.subdirs@);
            }
            let mut sd = t.subdirs.remove(j);
            proof {
                crate::policy::lemma_subdirs_view_index(old(t).subdirs@, j as int);
                assert(old(t)@.subdirs[j as int] == (SubV { name: sd.name@, tree: sd.tree@ }));
            }
            let cur2 = match &sd.tree.marker {
                Some(m) => copy_ids(m),
                None => cur,
            };
            match reencrypt_at_exec(&mut sd.tree, segs, i + 1, cur2, pins, kr, saved, dir) {
                Ok(()) => {
                    let ghost ent = sd;
                    t.subdirs.insert(j, sd);
                    proof {
                        assert(t.subdirs@ =~= old(t).subdirs@.update(j as int, ent));
                        crate::policy::lemma_subdirs_view_update(old(t).subdirs@, j as int, ent);
                        assert(t@.subdirs =~~= old(t)@.subdirs.update(
                            j as int,
                            SubV { name: name@, tree: ent.tree@ },
                        ));
                        assert(t@.files =~~= old(t)@.files);
                        assert(t@.marker == old(t)@.marker);
                    }
                    Ok(())
                },
                Err(e) => {
                    t.subdirs.insert(j, sd);
                    Err(e)
                },
            }
        },
    }
}

/// The credential store: its directory tree of ciphertext files and policy
/// markers, its pin cache, and its saved-key cache.
pub struct Store {
    pub tree: DirTree,
    pub pins: PinStore,
    pub saved: SavedKeyStore,
}

impl Store {
    /// An empty store whose root carries the given marker list.
    pub fn new(root_ids: Vec<Vec<u8>>) -> (r: Store)
        ensures
            r.tree@ == (TreeV {
                marker: Some(root_ids.deep_view()),
                files: Seq::<FileV>::empty(),
                subdirs: Seq::<SubV>::empty(),
            }),
            r.pins@ =~= Seq::<PinV>::empty(),
            r.saved@ =~= Seq::<SavedV>::empty(),
    {
        let tree = DirTree { marker: Some(root_ids), files: Vec::new(), subdirs: Vec::new() };
        proof {
            assert(tree@.files =~~= Seq::<FileV>::empty());
            assert(tree@.subdirs =~~= Seq::<SubV>::empty());
        }
        Store { tree, pins: PinStore::new(), saved: SavedKeyStore::new() }
    }

    /// Encrypt `contents` to the store path `segs`: recipients come from
    /// the policy walk (which creates missing directories), each recipient
    /// is resolved to a key id, and the ciphertext replaces whatever the
    /// path held.
    pub fn encrypt_string(
        &mut self,
        kr: &mut Keyring,
        dir: Option<&Directory>,
        segs: &Vec<Vec<u8>>,
        contents: Vec<u8>,
    ) -> (r: Result<(), StoreError>)
        requires
            segs@.len() >= 1,
        ensures
            ({
                let out = spec_encrypt_op(
                    old(self).tree@,
                    old(self).pins@,
                    old(kr)@,
                    old(self).saved@,
                    dir_view(dir),
                    segs.deep_view(),
                    contents@,
                );
                &&& final(self).tree@ == out.tree
                &&& final(self).pins@ == out.pins
                &&& final(kr)@ == out.kr
                &&& final(self).saved@ == old(self).saved@
                &&& match out.res {
                    Ok(()) => r is Ok,
                    Err(e) => r matches Err(x) && x@ == e,
                }
            }),
    {
        let ids = match effective_recipients(&mut self.tree, segs) {
            Ok(v) => v,
            Err(e) => {
                return Err(e);
            },
        };
        let keys = match resolve_all(&mut self.pins, kr, &self.saved, dir, &ids) {
            Ok(v) => v,
            Err(e) => {
                return Err(e);
            },
        };
        let c = match kr.encrypt_string(keys, contents) {
            Ok(c) => c,
            Err(e) => {
                return Err(e);
            },
        };
        proof {
            assert(segs.deep_view().skip(0) =~= segs.deep_view());
        }
        put_file_at(&mut self.tree, segs, 0, c);
        Ok(())
    }

    /// Decrypt the file at `segs`. Fails when the path does not exist, or
    /// when no secret key held by the keyring opens the ciphertext.
    pub fn decrypt(&self, kr: &Keyring, segs: &Vec<Vec<u8>>) -> (r: Result<Vec<u8>, StoreError>)
        requires
            segs@.len() >= 1,
        ensures
            match spec_get_file(self.tree@, segs.deep_view()) {
                None => r matches Err(e) && e@ == ErrV::MissingPath,
                Some(c) => if spec_can_decrypt(kr@, c) {
                    r matches Ok(p) && p@ == c.payload
                } else {
                    r matches Err(e) && e@ == ErrV::DecryptionFailed
                },
            },
    {
        proof {
            assert(segs.deep_view().skip(0) =~= segs.deep_view());
        }
        let c = match get_file_at(&self.tree, segs, 0) {
            Some(c) => c,
            None => {
                return Err(StoreError::MissingPath);
            },
        };
        kr.decrypt(&c)
    }

    /// Reencrypt the single file at `segs` against freshly computed
    /// recipients, as a policy change requires.
    pub fn reencrypt_file(
        &mut self,
        kr: &mut Keyring,
        dir: Option<&Directory>,
        segs: &Vec<Vec<u8>>,
    ) -> (r: Result<(), StoreError>)
        requires
            segs@.len() >= 1,
        ensures
            ({
                let out = spec_reencrypt_file_op(
                    old(self).tree@,
                    old(self).pins@,
                    old(kr)@,
                    old(self).saved@,
                    dir_view(dir),
                    segs.deep_view(),
                );
                &&& final(self).tree@ == out.tree
                &&& final(self).pins@ == out.pins
                &&& final(kr)@ == out.kr
                &&& final(self).saved@ == old(self).saved@
                &&& match out.res {
                    Ok(()) => r is Ok,
                    Err(e) => r matches Err(x) && x@ == e,
                }
            }),
    {
        let ids = match effective_recipients(&mut self.tree, segs) {
            Ok(v) => v,
            Err(e) => {
                return Err(e);
            },
        };
        let keys = match resolve_all(&mut self.pins, kr, &self.saved, dir, &ids) {
            Ok(v) => v,
            Err(e) => {
                return Err(e);
            },
        };
        proof {
            assert(segs.deep_view().skip(0) =~= segs.deep_view());
        }
        let c = match get_file_at(&self.tree, segs, 0) {
            Some(c) => c,
            None => {
                return Err(StoreError::MissingPath);
            },
        };
        let nc = match kr.reencrypt(&c, keys) {
            Ok(nc) => nc,
            Err(e) => {
                return Err(e);
            },
        };
        put_file_at(&mut self.tree, segs, 0, nc);
        Ok(())
    }

    /// Reencrypt every file under the subtree at `segs` (the whole store
    /// when `segs` is empty), skipping entries whose names carry the
    /// reserved marker prefix and recursing into ordinary subdirectories.
    /// Fails when the root has no marker or the path does not exist.
    pub fn reencrypt_folder(
        &mut self,
        kr: &mut Keyring,
        dir: Option<&Directory>,
        segs: &Vec<Vec<u8>>,
    ) -> (r: Result<(), StoreError>)
        ensures
            old(self).tree@.marker is None ==> (r matches Err(e) && e@ == ErrV::MissingRootPolicy
                && final(self).tree@ == old(self).tree@ && final(self).pins@ == old(self).pins@
                && final(kr)@ == old(kr)@),
            old(self).tree@.marker matches Some(root) ==> ({
                let out = spec_reencrypt_at(
                    old(self).tree@,
                    segs.deep_view(),
                    root,
                    old(self).pins@,
                    old(kr)@,
                    old(self).saved@,
                    dir_view(dir),
                );
                &&& final(self).pins@ == out.pins
                &&& final(kr)@ == out.kr
                &&& match out.res {
                    Ok(t2) => r is Ok && final(self).tree@ == t2,
                    Err(e) => r matches Err(x) && x@ == e,
                }
            }),
            final(self).saved@ == old(self).saved@,
    {
        let root = match &self.tree.marker {
            None => {
                return Err(StoreError::MissingRootPolicy);
            },
            Some(m) => copy_ids(m),
        };
        proof {
            assert(segs.deep_view().skip(0) =~= segs.deep_view());
        }
        reencrypt_at_exec(&mut self.tree, segs, 0, root, &mut self.pins, kr, &self.saved, dir)
    }

    /// Create (or overwrite) the policy of the directory at `segs` and
    /// reencrypt everything under it, as initialising a subfolder does.
    pub fn init_folder(
        &mut self,
        kr: &mut Keyring,
        dir: Option<&Directory>,
        segs: &Vec<Vec<u8>>,
        recipients: Vec<Vec<u8>>,
        default_id: Option<&Vec<u8>>,
    ) -> (r: Result<(), StoreError>)
        ensures
            ({
                let created = spec_create(
                    old(self).tree@,
                    segs.deep_view(),
                    chosen_ids(
                        recipients.deep_view(),
                        match default_id {
                            Some(e) => Some(e@),
                            None => None,
                        },
                    ),
                );
                match created.marker {
                    None => r matches Err(e) && e@ == ErrV::MissingRootPolicy && final(self).tree@
                        == created && final(self).pins@ == old(self).pins@ && final(kr)@ == old(
                        kr,
                    )@,
                    Some(root) => ({
                        let out = spec_reencrypt_at(
                            created,
                            segs.deep_view(),
                            root,
                            old(self).pins@,
                            old(kr)@,
                            old(self).saved@,
                            dir_view(dir),
                        );
                        &&& final(self).pins@ == out.pins
                        &&& final(kr)@ == out.kr
                        &&& match out.res {
                            Ok(t2) => r is Ok && final(self).tree@ == t2,
                            Err(e) => r matches Err(x) && x@ == e,
                        }
                    }),
                }
            }),
            final(self).saved@ == old(self).saved@,
    {
        create_sub_dir(&mut self.tree, segs, recipients, default_id);
        self.reencrypt_folder(kr, dir, segs)
    }
}

} // verus!
