//! A value model of the cryptographic engine: the keyring as a list of key
//! entries, and ciphertext as the pair of recipient key ids and payload.
//! Probe, lookup, import, export, encrypt and decrypt are specified exactly,
//! so the resolution and reencryption logic built on them can be proved.

use vstd::prelude::*;

use crate::bytes::{bytes_eq, copy_bytes, copy_ids, ends_with, is_suffix_of};
use crate::errors::StoreError;

verus! {

broadcast use crate::bytes::lemma_bytes_deep_view;

/// One public key known to the keyring: its canonical long id, the identity
/// strings it attests (emails, usernames), and whether the matching secret
/// key is held.
pub struct KeyEntry {
    pub long_id: Vec<u8>,
    pub uids: Vec<Vec<u8>>,
    pub secret: bool,
}

/// The ghost form of [`KeyEntry`].
#[verifier::ext_equal]
pub ghost struct KeyEntryV {
    pub long_id: Seq<u8>,
    pub uids: Seq<Seq<u8>>,
    pub secret: bool,
}

impl View for KeyEntry {
    type V = KeyEntryV;

    open spec fn view(&self) -> KeyEntryV {
        KeyEntryV { long_id: self.long_id@, uids: self.uids.deep_view(), secret: self.secret }
    }
}

impl DeepView for KeyEntry {
    type V = KeyEntryV;

    open spec fn deep_view(&self) -> KeyEntryV {
        self.view()
    }
}

impl KeyEntry {
    /// A field-for-field copy.
    pub fn duplicate(&self) -> (r: KeyEntry)
        ensures
            r@ == self@,
    {
        KeyEntry {
            long_id: copy_bytes(&self.long_id),
            uids: copy_ids(&self.uids),
            secret: self.secret,
        }
    }
}

/// A keyring query hits an entry when it names the long id exactly, names a
/// trailing part of it (a short id), or is one of the attested identities.
pub open spec fn entry_matches(e: KeyEntryV, q: Seq<u8>) -> bool {
    q == e.long_id || is_suffix_of(q, e.long_id) || e.uids.contains(q)
}

pub open spec fn spec_has_key(kr: Seq<KeyEntryV>, q: Seq<u8>) -> bool {
    exists|i: int| 0 <= i < kr.len() && entry_matches(kr[i], q)
}

/// The first entry a query hits, as the keyring's lookup reports it.
pub open spec fn spec_first_match(kr: Seq<KeyEntryV>, q: Seq<u8>) -> Option<KeyEntryV>
    decreases kr.len(),
{
    if kr.len() == 0 {
        None
    } else if entry_matches(kr[0], q) {
        Some(kr[0])
    } else {
        spec_first_match(kr.drop_first(), q)
    }
}

pub proof fn lemma_first_match_skip(kr: Seq<KeyEntryV>, q: Seq<u8>, i: int)
    requires
        0 <= i < kr.len(),
        !entry_matches(kr[i], q),
    ensures
        spec_first_match(kr.skip(i), q) == spec_first_match(kr.skip(i + 1), q),
{
    assert(kr.skip(i)[0] == kr[i]);
    assert(kr.skip(i).drop_first() =~= kr.skip(i + 1));
}

pub proof fn lemma_first_match_some(kr: Seq<KeyEntryV>, q: Seq<u8>)
    requires
        spec_has_key(kr, q),
    ensures
        spec_first_match(kr, q) is Some,
        entry_matches(spec_first_match(kr, q)->Some_0, q),
    decreases kr.len(),
{
    if kr.len() > 0 && !entry_matches(kr[0], q) {
        let i = choose|i: int| 0 <= i < kr.len() && entry_matches(kr[i], q);
        assert(kr.drop_first()[i - 1] == kr[i]);
        lemma_first_match_some(kr.drop_first(), q);
    }
}

/// Ciphertext in the model: the key ids it was produced for and the payload
/// they can recover.
pub struct Cipher {
    pub recipients: Vec<Vec<u8>>,
    pub payload: Vec<u8>,
}

/// The ghost form of [`Cipher`].
#[verifier::ext_equal]
pub ghost struct CipherV {
    pub recipients: Seq<Seq<u8>>,
    pub payload: Seq<u8>,
}

impl View for Cipher {
    type V = CipherV;

    open spec fn view(&self) -> CipherV {
        CipherV { recipients: self.recipients.deep_view(), payload: self.payload@ }
    }
}

impl Cipher {
    /// A field-for-field copy.
    pub fn duplicate(&self) -> (r: Cipher)
        ensures
            r@ == self@,
    {
        Cipher { recipients: copy_ids(&self.recipients), payload: copy_bytes(&self.payload) }
    }
}

/// Encryption succeeds exactly when every recipient id hits the keyring.
pub open spec fn spec_all_known(kr: Seq<KeyEntryV>, ids: Seq<Seq<u8>>) -> bool {
    forall|j: int| 0 <= j < ids.len() ==> spec_has_key(kr, ids[j])
}

/// Decryption succeeds exactly when the keyring holds a secret key whose
/// long id is among the ciphertext's recipients.
pub open spec fn spec_can_decrypt(kr: Seq<KeyEntryV>, c: CipherV) -> bool {
    exists|i: int, j: int|
        0 <= i < kr.len() && 0 <= j < c.recipients.len() && kr[i].secret && kr[i].long_id
            == c.recipients[j]
}

/// The local keyring, modelled as the ordered list of its entries.
pub struct Keyring {
    pub entries: Vec<KeyEntry>,
}

impl View for Keyring {
    type V = Seq<KeyEntryV>;

    open spec fn view(&self) -> Seq<KeyEntryV> {
        self.entries.deep_view()
    }
}

fn entry_matches_exec(e: &KeyEntry, q: &Vec<u8>) -> (r: bool)
    ensures
        r == entry_matches(e@, q@),
{
    if bytes_eq(q, &e.long_id) {
        return true;
    }
    if ends_with(&e.long_id, q) {
        return true;
    }
    let mut i: usize = 0;
    while i < e.uids.len()
        invariant
            i <= e.uids@.len(),
            forall|j: int| 0 <= j < i ==> e@.uids[j] != q@,
        decreases e.uids@.len() - i,
    {
        if bytes_eq(&e.uids[i], q) {
            assert(e@.uids[i as int] == q@);
            return true;
        }
        i += 1;
    }
    false
}

impl Keyring {
    pub fn new() -> (r: Keyring)
        ensures
            r@ =~= Seq::<KeyEntryV>::empty(),
    {
        Keyring { entries: Vec::new() }
    }

    /// The keyring probe: does any entry match the query?
    pub fn has_key(&self, q: &Vec<u8>) -> (r: bool)
        ensures
            r == spec_has_key(self@, q@),
    {
        let mut i: usize = 0;
        while i < self.entries.len()
            invariant
                i <= self@.len(),
                forall|j: int| 0 <= j < i ==> !entry_matches(self@[j], q@),
            decreases self@.len() - i,
        {
            if entry_matches_exec(&self.entries[i], q) {
                proof {
                    assert(entry_matches(self@[i as int], q@));
                }
                return true;
            }
            i += 1;
        }
        false
    }

    /// The canonical long id of the first entry the query hits; `None` when
    /// nothing matches, which callers treat as a lookup failure.
    pub fn get_key_id(&self, q: &Vec<u8>) -> (r: Option<Vec<u8>>)
        ensures
            match spec_first_match(self@, q@) {
                Some(e) => r matches Some(k) && k@ == e.long_id,
                None => r is None,
            },
    {
        proof {
            assert(self@.skip(0) =~= self@);
        }
        let mut i: usize = 0;
        while i < self.entries.len()
            invariant
                i <= self@.len(),
                spec_first_match(self@, q@) == spec_first_match(self@.skip(i as int), q@),
            decreases self@.len() - i,
        {
            if entry_matches_exec(&self.entries[i], q) {
                proof {
                    assert(self@.skip(i as int)[0] == self@[i as int]);
                }
                return Some(copy_bytes(&self.entries[i].long_id));
            }
            proof {
                lemma_first_match_skip(self@, q@, i as int);
            }
            i += 1;
        }
        None
    }

    /// Import: the entry joins the keyring and its long id is reported back.
    pub fn import_key(&mut self, key: KeyEntry) -> (r: Vec<u8>)
        ensures
            final(self)@ == old(self)@.push(key@),
            r@ == key@.long_id,
    {
        let ghost kv = key@;
        let id = copy_bytes(&key.long_id);
        self.entries.push(key);
        proof {
            assert(self@ =~= old(self)@.push(kv));
        }
        id
    }

    /// Export: a copy of the first entry the query hits.
    pub fn export_key(&self, q: &Vec<u8>) -> (r: Option<KeyEntry>)
        ensures
            match spec_first_match(self@, q@) {
                Some(e) => r matches Some(k) && k@ == e,
                None => r is None,
            },
    {
        proof {
            assert(self@.skip(0) =~= self@);
        }
        let mut i: usize = 0;
        while i < self.entries.len()
            invariant
                i <= self@.len(),
                spec_first_match(self@, q@) == spec_first_match(self@.skip(i as int), q@),
            decreases self@.len() - i,
        {
            if entry_matches_exec(&self.entries[i], q) {
                proof {
                    assert(self@.skip(i as int)[0] == self@[i as int]);
                }
                let e = &self.entries[i];
                let copy = KeyEntry {
                    long_id: copy_bytes(&e.long_id),
                    uids: copy_ids(&e.uids),
                    secret: e.secret,
                };
                return Some(copy);
            }
            proof {
                lemma_first_match_skip(self@, q@, i as int);
            }
            i += 1;
        }
        None
    }

    /// Encrypt a payload for the given recipient key ids. Fails exactly when
    /// some recipient id is absent from the keyring.
    pub fn encrypt_string(&self, recipients: Vec<Vec<u8>>, payload: Vec<u8>) -> (r: Result<
        Cipher,
        StoreError,
    >)
        ensures
            spec_all_known(self@, recipients.deep_view()) ==> (r matches Ok(c) && c@ == (CipherV {
                recipients: recipients.deep_view(),
                payload: payload@,
            })),
            !spec_all_known(self@, recipients.deep_view()) ==> (r matches Err(e) && e@
                == crate::errors::ErrV::EncryptionFailed),
    {
        let mut j: usize = 0;
        while j < recipients.len()
            invariant
                j <= recipients@.len(),
                forall|k: int| 0 <= k < j ==> spec_has_key(self@, recipients.deep_view()[k]),
            decreases recipients@.len() - j,
        {
            if !self.has_key(&recipients[j]) {
                proof {
                    assert(recipients.deep_view()[j as int] == recipients@[j as int].deep_view());
                }
                return Err(StoreError::EncryptionFailed);
            }
            j += 1;
        }
        Ok(Cipher { recipients, payload })
    }

    /// Decrypt a ciphertext. Fails exactly when no secret key held by the
    /// keyring has its long id among the recipients.
    pub fn decrypt(&self, c: &Cipher) -> (r: Result<Vec<u8>, StoreError>)
        ensures
            spec_can_decrypt(self@, c@) ==> (r matches Ok(p) && p@ == c@.payload),
            !spec_can_decrypt(self@, c@) ==> (r matches Err(e) && e@
                == crate::errors::ErrV::DecryptionFailed),
    {
        let mut i: usize = 0;
        while i < self.entries.len()
            invariant
                i <= self@.len(),
                forall|a: int, b: int|
                    0 <= a < i && 0 <= b < c@.recipients.len() ==> !(self@[a].secret && self@[a].long_id
                        == c@.recipients[b]),
            decreases self@.len() - i,
        {
            if self.entries[i].secret {
                let mut j: usize = 0;
                while j < c.recipients.len()
                    invariant
                        i < self@.len(),
                        j <= c@.recipients.len(),
                        self@[i as int].secret,
                        forall|b: int|
                            0 <= b < j ==> self@[i as int].long_id != c@.recipients[b],
                    decreases c@.recipients.len() - j,
                {
                    if bytes_eq(&self.entries[i].long_id, &c.recipients[j]) {
                        assert(self@[i as int].long_id == c@.recipients[j as int]);
                        return Ok(copy_bytes(&c.payload));
                    }
                    j += 1;
                }
            }
            i += 1;
        }
        Err(StoreError::DecryptionFailed)
    }

    /// Decrypt, then encrypt the recovered payload for a fresh recipient set.
    pub fn reencrypt(&self, c: &Cipher, recipients: Vec<Vec<u8>>) -> (r: Result<
        Cipher,
        StoreError,
    >)
        ensures
            spec_can_decrypt(self@, c@) && spec_all_known(self@, recipients.deep_view()) ==> (r
                matches Ok(n) && n@ == (CipherV {
                recipients: recipients.deep_view(),
                payload: c@.payload,
            })),
            !spec_can_decrypt(self@, c@) ==> (r matches Err(e) && e@
                == crate::errors::ErrV::DecryptionFailed),
            spec_can_decrypt(self@, c@) && !spec_all_known(self@, recipients.deep_view()) ==> (r
                matches Err(e) && e@ == crate::errors::ErrV::EncryptionFailed),
    {
        let payload = match self.decrypt(c) {
            Ok(p) => p,
            Err(e) => {
                return Err(e);
            },
        };
        self.encrypt_string(recipients, payload)
    }
}


/// `bytes` split at `sep`, empty pieces kept, as the engine's diagnostic
/// text is tokenised. `cur` and `out` accumulate the piece being read and
/// the pieces already read.
pub open spec fn spec_split_acc(bytes: Seq<u8>, sep: u8, cur: Seq<u8>, out: Seq<Seq<u8>>) -> Seq<
    Seq<u8>,
>
    decreases bytes.len(),
{
    if bytes.len() == 0 {
        out.push(cur)
    } else if bytes[0] == sep {
        spec_split_acc(bytes.skip(1), sep, Seq::empty(), out.push(cur))
    } else {
        spec_split_acc(bytes.skip(1), sep, cur.push(bytes[0]), out)
    }
}

/// `bytes` split at `sep`, empty pieces kept.
pub open spec fn spec_split(bytes: Seq<u8>, sep: u8) -> Seq<Seq<u8>> {
    spec_split_acc(bytes, sep, Seq::empty(), Seq::empty())
}

/// The short key id named in the engine's import diagnostic: the third
/// space-separated word of the diagnostic's first line, shorn of its
/// trailing character (a colon). `None` when the text has no such word —
/// a malformed diagnostic the caller must treat as a fatal engine error.
pub open spec fn spec_import_short_id(diag: Seq<u8>) -> Option<Seq<u8>> {
    let line = spec_split(diag, 10)[0];
    let words = spec_split(line, 32);
    if words.len() < 3 {
        None
    } else if words[2].len() == 0 {
        None
    } else {
        Some(words[2].drop_last())
    }
}

fn split_bytes(v: &Vec<u8>, sep: u8) -> (r: Vec<Vec<u8>>)
    ensures
        r.deep_view() == spec_split(v@, sep),
        r@.len() >= 1,
{
    let mut out: Vec<Vec<u8>> = Vec::new();
    let mut cur: Vec<u8> = Vec::new();
    let mut i: usize = 0;
    proof {
        assert(v@.skip(0) =~= v@);
        assert(cur@ =~= Seq::<u8>::empty());
        assert(out.deep_view() =~= Seq::<Seq<u8>>::empty());
    }
    while i < v.len()
        invariant
            i <= v@.len(),
            spec_split(v@, sep) == spec_split_acc(v@.skip(i as int), sep, cur@, out.deep_view()),
        decreases v@.len() - i,
    {
        proof {
            assert(v@.skip(i as int).skip(1) =~= v@.skip(i + 1));
            assert(v@.skip(i as int)[0] == v@[i as int]);
        }
        if v[i] == sep {
            let ghost prev = out.deep_view();
            let ghost piece = cur@;
            out.push(cur);
            cur = Vec::new();
            proof {
                assert(out.deep_view() =~~= prev.push(piece));
                assert(cur@ =~= Seq::<u8>::empty());
            }
        } else {
            cur.push(v[i]);
        }
        i += 1;
    }
    proof {
        assert(v@.skip(v@.len() as int) =~= Seq::<u8>::empty());
    }
    let ghost prev = out.deep_view();
    let ghost piece = cur@;
    out.push(cur);
    proof {
        assert(out.deep_view() =~~= prev.push(piece));
    }
    out
}

/// Recover the freshly imported key's short id from the engine's textual
/// import diagnostic. The diagnostic format is not independently
/// validated: a text that does not carry the id where expected yields
/// `None`, which callers treat as fatal.
pub fn parse_import_diagnostic(diag: &Vec<u8>) -> (r: Option<Vec<u8>>)
    ensures
        match spec_import_short_id(diag@) {
            Some(s) => r matches Some(v) && v@ == s,
            None => r is None,
        },
{
    let lines = split_bytes(diag, 10u8);
    proof {
        assert(lines.deep_view()[0] == lines@[0]@);
    }
    let words = split_bytes(&lines[0], 32u8);
    if words.len() < 3 {
        return None;
    }
    proof {
        assert(words.deep_view()[2] == words@[2]@);
    }
    if words[2].len() == 0 {
        return None;
    }
    let mut id = copy_bytes(&words[2]);
    id.pop();
    proof {
        assert(id@ =~= words@[2]@.drop_last());
    }
    Some(id)
}

} // verus!
