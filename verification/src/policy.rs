//! The recipient-policy tree: a directory tree whose directories may carry a
//! marker list of recipient identifiers. A directory without a marker
//! inherits its parent's effective list unchanged; one with a marker
//! replaces the list for itself and everything below it. Walking a path
//! creates missing directories on the way, and created directories inherit.

use vstd::prelude::*;

use crate::bytes::{bytes_eq, copy_bytes, copy_ids};
use crate::errors::{ErrV, StoreError};
use crate::keyring::{Cipher, CipherV};

verus! {

broadcast use crate::bytes::lemma_bytes_deep_view;

/// An encrypted file in the store tree.
pub struct FileEntry {
    pub name: Vec<u8>,
    pub data: Cipher,
}

/// A named subdirectory of the store tree.
pub struct SubDir {
    pub name: Vec<u8>,
    pub tree: DirTree,
}

/// One directory of the store: its marker list, if the directory has a
/// marker file, its encrypted files, and its subdirectories.
pub struct DirTree {
    pub marker: Option<Vec<Vec<u8>>>,
    pub files: Vec<FileEntry>,
    pub subdirs: Vec<SubDir>,
}

/// The ghost form of [`FileEntry`].
#[verifier::ext_equal]
pub ghost struct FileV {
    pub name: Seq<u8>,
    pub data: CipherV,
}

/// The ghost form of [`SubDir`].
#[verifier::ext_equal]
pub ghost struct SubV {
    pub name: Seq<u8>,
    pub tree: TreeV,
}

/// The ghost form of [`DirTree`].
#[verifier::ext_equal]
pub ghost struct TreeV {
    pub marker: Option<Seq<Seq<u8>>>,
    pub files: Seq<FileV>,
    pub subdirs: Seq<SubV>,
}

/// The ghost trees a sequence of subdirectories denotes.
pub open spec fn subdirs_view(s: Seq<SubDir>) -> Seq<SubV>
    decreases s,
{
    if s.len() == 0 {
        Seq::empty()
    } else {
        seq![SubV { name: s[0].name@, tree: tree_view(s[0].tree) }] + subdirs_view(s.drop_first())
    }
}

/// The ghost files a sequence of file entries denotes.
pub open spec fn files_view(fs: Seq<FileEntry>) -> Seq<FileV> {
    Seq::new(fs.len(), |i: int| FileV { name: fs[i].name@, data: fs[i].data@ })
}

/// The ghost tree a [`DirTree`] denotes.
pub open spec fn tree_view(t: DirTree) -> TreeV
    decreases t,
{
    TreeV {
        marker: match t.marker {
            Some(m) => Some(m.deep_view()),
            None => None,
        },
        files: files_view(t.files@),
        subdirs: subdirs_view(t.subdirs@),
    }
}

/// The height of a ghost tree: how many directory levels it nests.
pub open spec fn tree_height(t: TreeV) -> nat
    decreases t,
{
    1 + subs_height(t.subdirs)
}

/// The greatest height among a sequence of subdirectories.
pub open spec fn subs_height(s: Seq<SubV>) -> nat
    decreases s,
{
    if s.len() == 0 {
        0
    } else {
        let h0 = tree_height(s[0].tree);
        let hr = subs_height(s.drop_first());
        if h0 > hr {
            h0
        } else {
            hr
        }
    }
}

/// Every subdirectory's tree is bounded by the sequence's height.
pub proof fn lemma_subs_height_bound(s: Seq<SubV>, j: int)
    requires
        0 <= j < s.len(),
    ensures
        tree_height(s[j].tree) <= subs_height(s),
    decreases j,
{
    if j > 0 {
        lemma_subs_height_bound(s.drop_first(), j - 1);
    }
}

pub broadcast proof fn lemma_subdirs_view_len(s: Seq<SubDir>)
    ensures
        #[trigger] subdirs_view(s).len() == s.len(),
    decreases s,
{
    if s.len() > 0 {
        lemma_subdirs_view_len(s.drop_first());
    }
}

pub broadcast proof fn lemma_subdirs_view_index(s: Seq<SubDir>, i: int)
    requires
        0 <= i < s.len(),
    ensures
        #[trigger] subdirs_view(s)[i] == (SubV { name: s[i].name@, tree: tree_view(s[i].tree) }),
    decreases s,
{
    lemma_subdirs_view_len(s);
    if i > 0 {
        lemma_subdirs_view_index(s.drop_first(), i - 1);
    }
}

impl View for DirTree {
    type V = TreeV;

    open spec fn view(&self) -> TreeV {
        tree_view(*self)
    }
}

/// The index of the first subdirectory named `name`, scanning from `i`.
pub open spec fn lookup_sub_from(subdirs: Seq<SubV>, name: Seq<u8>, i: int) -> Option<int>
    decreases subdirs.len() - i,
{
    if i < 0 || i >= subdirs.len() {
        None
    } else if subdirs[i].name == name {
        Some(i)
    } else {
        lookup_sub_from(subdirs, name, i + 1)
    }
}

/// The index of the first subdirectory named `name`.
pub open spec fn lookup_sub(subdirs: Seq<SubV>, name: Seq<u8>) -> Option<int> {
    lookup_sub_from(subdirs, name, 0)
}

/// The walk of `effective_recipients`: descend along every segment of
/// `segs` except the last, creating missing directories (which inherit),
/// replacing the current list wherever a directory has a marker. Yields the
/// tree after creation and the effective list.
pub open spec fn spec_effective(t: TreeV, segs: Seq<Seq<u8>>, cur: Seq<Seq<u8>>) -> (TreeV, Seq<
    Seq<u8>,
>)
    decreases segs.len(),
{
    if segs.len() <= 1 {
        (t, cur)
    } else {
        match lookup_sub(t.subdirs, segs[0]) {
            None => {
                let child = TreeV { marker: None, files: Seq::empty(), subdirs: Seq::empty() };
                let rec = spec_effective(child, segs.drop_first(), cur);
                (
                    TreeV {
                        marker: t.marker,
                        files: t.files,
                        subdirs: t.subdirs.push(SubV { name: segs[0], tree: rec.0 }),
                    },
                    rec.1,
                )
            },
            Some(j) => {
                let sub = t.subdirs[j].tree;
                let cur2 = match sub.marker {
                    Some(m) => m,
                    None => cur,
                };
                let rec = spec_effective(sub, segs.drop_first(), cur2);
                (
                    TreeV {
                        marker: t.marker,
                        files: t.files,
                        subdirs: t.subdirs.update(j, SubV { name: segs[0], tree: rec.0 }),
                    },
                    rec.1,
                )
            },
        }
    }
}

/// The tree after `create_sub_dir` writes `ids` as the marker of the
/// directory at `segs`, creating the whole path as needed.
pub open spec fn spec_create(t: TreeV, segs: Seq<Seq<u8>>, ids: Seq<Seq<u8>>) -> TreeV
    decreases segs.len(),
{
    if segs.len() == 0 {
        TreeV { marker: Some(ids), files: t.files, subdirs: t.subdirs }
    } else {
        match lookup_sub(t.subdirs, segs[0]) {
            None => {
                let child = TreeV { marker: None, files: Seq::empty(), subdirs: Seq::empty() };
                TreeV {
                    marker: t.marker,
                    files: t.files,
                    subdirs: t.subdirs.push(
                        SubV { name: segs[0], tree: spec_create(child, segs.drop_first(), ids) },
                    ),
                }
            },
            Some(j) => TreeV {
                marker: t.marker,
                files: t.files,
                subdirs: t.subdirs.update(
                    j,
                    SubV {
                        name: segs[0],
                        tree: spec_create(t.subdirs[j].tree, segs.drop_first(), ids),
                    },
                ),
            },
        }
    }
}

/// The marker list `create_sub_dir` writes: the given recipients, or the
/// default identity when none were given, or an empty list.
pub open spec fn chosen_ids(recipients: Seq<Seq<u8>>, default_id: Option<Seq<u8>>) -> Seq<
    Seq<u8>,
> {
    if recipients.len() > 0 {
        recipients
    } else {
        match default_id {
            Some(e) => seq![e],
            None => Seq::empty(),
        }
    }
}

/// The index of the subdirectory of `t` named `name`, if one exists.
pub fn find_subdir_pub(t: &DirTree, name: &Vec<u8>) -> (r: Option<usize>)
    ensures
        match lookup_sub(t@.subdirs, name@) {
            Some(j) => r matches Some(u) && u == j && 0 <= j < t.subdirs@.len() && t@.subdirs[j].name
                == name@,
            None => r is None,
        },
{
    find_subdir(t, name)
}

fn find_subdir(t: &DirTree, name: &Vec<u8>) -> (r: Option<usize>)
    ensures
        match lookup_sub(t@.subdirs, name@) {
            Some(j) => r matches Some(u) && u == j && 0 <= j < t.subdirs@.len() && t@.subdirs[j].name
                == name@,
            None => r is None,
        },
{
    proof {
        lemma_subdirs_view_len(t.subdirs@);
    }
    let mut i: usize = 0;
    while i < t.subdirs.len()
        invariant
            i <= t.subdirs@.len(),
            t@.subdirs.len() == t.subdirs@.len(),
            lookup_sub(t@.subdirs, name@) == lookup_sub_from(t@.subdirs, name@, i as int),
        decreases t.subdirs@.len() - i,
    {
        proof {
            lemma_subdirs_view_index(t.subdirs@, i as int);
        }
        if bytes_eq(&t.subdirs[i].name, name) {
            return Some(i);
        }
        i += 1;
    }
    None
}

/// Appending a subdirectory appends its ghost form to the view.
pub proof fn lemma_subdirs_view_push(s: Seq<SubDir>, e: SubDir)
    ensures
        subdirs_view(s.push(e)) == subdirs_view(s).push(
            SubV { name: e.name@, tree: tree_view(e.tree) },
        ),
{
    let ev = SubV { name: e.name@, tree: tree_view(e.tree) };
    lemma_subdirs_view_len(s);
    lemma_subdirs_view_len(s.push(e));
    assert forall|i: int| 0 <= i < s.push(e).len() implies subdirs_view(s.push(e))[i]
        == subdirs_view(s).push(ev)[i] by {
        lemma_subdirs_view_index(s.push(e), i);
        if i < s.len() {
            lemma_subdirs_view_index(s, i);
        }
    }
    assert(subdirs_view(s.push(e)) =~= subdirs_view(s).push(ev));
}

/// Replacing a subdirectory replaces its ghost form in the view.
pub proof fn lemma_subdirs_view_update(s: Seq<SubDir>, j: int, e: SubDir)
    requires
        0 <= j < s.len(),
    ensures
        subdirs_view(s.update(j, e)) == subdirs_view(s).update(
            j,
            SubV { name: e.name@, tree: tree_view(e.tree) },
        ),
{
    let ev = SubV { name: e.name@, tree: tree_view(e.tree) };
    lemma_subdirs_view_len(s);
    lemma_subdirs_view_len(s.update(j, e));
    assert forall|i: int| 0 <= i < s.update(j, e).len() implies subdirs_view(s.update(j, e))[i]
        == subdirs_view(s).update(j, ev)[i] by {
        lemma_subdirs_view_index(s.update(j, e), i);
        if i != j {
            lemma_subdirs_view_index(s, i);
        }
    }
    assert(subdirs_view(s.update(j, e)) =~= subdirs_view(s).update(j, ev));
}

fn walk_effective(t: &mut DirTree, segs: &Vec<Vec<u8>>, i: usize, cur: Vec<Vec<u8>>) -> (r: Vec<
    Vec<u8>,
>)
    requires
        i <= segs@.len(),
    ensures
        (final(t)@, r.deep_view()) == spec_effective(
            old(t)@,
            segs.deep_view().skip(i as int),
            cur.deep_view(),
        ),
    decreases segs@.len() - i,
{
    let ghost gsegs = segs.deep_view().skip(i as int);
    if segs.len() - i <= 1 {
        proof {
            assert(gsegs.len() <= 1);
        }
        return cur;
    }
    proof {
        assert(gsegs[0] == segs.deep_view()[i as int]);
        assert(segs.deep_view()[i as int] == segs@[i as int]@);
        assert(gsegs.drop_first() =~= segs.deep_view().skip(i + 1));
    }
    let name = &segs[i];
    match find_subdir(t, name) {
        None => {
            let mut child = DirTree { marker: None, files: Vec::new(), subdirs: Vec::new() };
            proof {
                lemma_subdirs_view_len(child.subdirs@);
                assert(child@ =~~= (TreeV {
                    marker: None,
                    files: Seq::empty(),
                    subdirs: Seq::empty(),
                }));
            }
            let r = walk_effective(&mut child, segs, i + 1, cur);
            let entry = SubDir { name: copy_bytes(name), tree: child };
            let ghost ent = entry;
            t.subdirs.push(entry);
            proof {
                lemma_subdirs_view_push(old(t).subdirs@, ent);
                assert(t@.subdirs =~~= old(t)@.subdirs.push(
                    SubV { name: name@, tree: ent.tree@ },
                ));
                assert(t@.files =~~= old(t)@.files);
                assert(t@.marker == old(t)@.marker);
                assert(t@ =~~= spec_effective(old(t)@, gsegs, cur.deep_view()).0);
            }
            r
        },
        Some(j) => {
            proof {
                lemma_subdirs_view_len(t.subdirs@);
            }
            let mut sd = t.subdirs.remove(j);
            let ghost sdv = sd.tree@;
            proof {
                lemma_subdirs_view_index(old(t).subdirs@, j as int);
                assert(old(t)@.subdirs[j as int] == (SubV { name: sd.name@, tree: sdv }));
            }
            let cur2 = match &sd.tree.marker {
                Some(m) => copy_ids(m),
                None => cur,
            };
            let r = walk_effective(&mut sd.tree, segs, i + 1, cur2);
            let ghost ent = sd;
            t.subdirs.insert(j, sd);
            proof {
                assert(t.subdirs@ =~= old(t).subdirs@.update(j as int, ent));
                lemma_subdirs_view_update(old(t).subdirs@, j as int, ent);
                assert(t@.subdirs =~~= old(t)@.subdirs.update(
                    j as int,
                    SubV { name: name@, tree: ent.tree@ },
                ));
                assert(t@.files =~~= old(t)@.files);
                assert(t@.marker == old(t)@.marker);
                assert(t@ =~~= spec_effective(old(t)@, gsegs, cur.deep_view()).0);
            }
            r
        },
    }
}

/// The effective recipient list for the file at `segs` (relative to the
/// store root, final segment the file name), creating missing directories
/// on the way. Fails when the root has no marker.
pub fn effective_recipients(t: &mut DirTree, segs: &Vec<Vec<u8>>) -> (r: Result<
    Vec<Vec<u8>>,
    StoreError,
>)
    requires
        segs@.len() >= 1,
    ensures
        old(t)@.marker is None ==> (r matches Err(e) && e@ == ErrV::MissingRootPolicy && final(t)@
            == old(t)@),
        old(t)@.marker matches Some(root) ==> ({
            let rec = spec_effective(old(t)@, segs.deep_view(), root);
            &&& final(t)@ == rec.0
            &&& (r matches Ok(ids) && ids.deep_view() == rec.1)
        }),
{
    let root = match &t.marker {
        None => {
            return Err(StoreError::MissingRootPolicy);
        },
        Some(m) => copy_ids(m),
    };
    proof {
        assert(segs.deep_view().skip(0) =~= segs.deep_view());
    }
    let ids = walk_effective(t, segs, 0, root);
    Ok(ids)
}

fn walk_create(t: &mut DirTree, segs: &Vec<Vec<u8>>, i: usize, ids: Vec<Vec<u8>>)
    requires
        i <= segs@.len(),
    ensures
        final(t)@ == spec_create(old(t)@, segs.deep_view().skip(i as int), ids.deep_view()),
    decreases segs@.len() - i,
{
    let ghost gsegs = segs.deep_view().skip(i as int);
    if i == segs.len() {
        t.marker = Some(ids);
        proof {
            assert(t@.files =~~= old(t)@.files);
            assert(t@.subdirs =~~= old(t)@.subdirs);
            assert(t@ =~~= spec_create(old(t)@, gsegs, ids.deep_view()));
        }
        return ;
    }
    proof {
        assert(gsegs[0] == segs.deep_view()[i as int]);
        assert(segs.deep_view()[i as int] == segs@[i as int]@);
        assert(gsegs.drop_first() =~= segs.deep_view().skip(i + 1));
    }
    let name = &segs[i];
    match find_subdir(t, name) {
        None => {
            let mut child = DirTree { marker: None, files: Vec::new(), subdirs: Vec::new() };
            proof {
                lemma_subdirs_view_len(child.subdirs@);
                assert(child@ =~~= (TreeV {
                    marker: None,
                    files: Seq::empty(),
                    subdirs: Seq::empty(),
                }));
            }
            walk_create(&mut child, segs, i + 1, ids);
            let entry = SubDir { name: copy_bytes(name), tree: child };
            let ghost ent = entry;
            t.subdirs.push(entry);
            proof {
                lemma_subdirs_view_push(old(t).subdirs@, ent);
                assert(t@.subdirs =~~= old(t)@.subdirs.push(
                    SubV { name: name@, tree: ent.tree@ },
                ));
                assert(t@.files =~~= old(t)@.files);
                assert(t@.marker == old(t)@.marker);
                assert(t@ =~~= spec_create(old(t)@, gsegs, ids.deep_view()));
            }
        },
        Some(j) => {
            proof {
                lemma_subdirs_view_len(t.subdirs@);
            }
            let mut sd = t.subdirs.remove(j);
            proof {
                lemma_subdirs_view_index(old(t).subdirs@, j as int);
                assert(old(t)@.subdirs[j as int] == (SubV { name: sd.name@, tree: sd.tree@ }));
            }
            walk_create(&mut sd.tree, segs, i + 1, ids);
            let ghost ent = sd;
            t.subdirs.insert(j, sd);
            proof {
                assert(t.subdirs@ =~= old(t).subdirs@.update(j as int, ent));
                lemma_subdirs_view_update(old(t).subdirs@, j as int, ent);
                assert(t@.subdirs =~~= old(t)@.subdirs.update(
                    j as int,
                    SubV { name: name@, tree: ent.tree@ },
                ));
                assert(t@.files =~~= old(t)@.files);
                assert(t@.marker == old(t)@.marker);
                assert(t@ =~~= spec_create(old(t)@, gsegs, ids.deep_view()));
            }
        },
    }
}

/// Create the directory at `segs` (and its ancestors) as needed, and write
/// its marker: the given recipients, or the default identity when none were
/// given, or an empty list.
pub fn create_sub_dir(
    t: &mut DirTree,
    segs: &Vec<Vec<u8>>,
    recipients: Vec<Vec<u8>>,
    default_id: Option<&Vec<u8>>,
)
    ensures
        final(t)@ == spec_create(
            old(t)@,
            segs.deep_view(),
            chosen_ids(
                recipients.deep_view(),
                match default_id {
                    Some(e) => Some(e@),
                    None => None,
                },
            ),
        ),
{
    let ids: Vec<Vec<u8>> = if recipients.len() > 0 {
        recipients
    } else {
        match default_id {
            Some(e) => {
                let mut v: Vec<Vec<u8>> = Vec::new();
                v.push(copy_bytes(e));
                proof {
                    assert(v.deep_view() =~~= seq![e@]);
                }
                v
            },
            None => Vec::new(),
        }
    };
    proof {
        assert(segs.deep_view().skip(0) =~= segs.deep_view());
        if recipients.len() == 0 && default_id is None {
            assert(ids.deep_view() =~~= Seq::<Seq<u8>>::empty());
        }
    }
    walk_create(t, segs, 0, ids);
}

} // verus!
