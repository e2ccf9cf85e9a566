//! The encryption service: one-to-one messages through the X3DH protocol
//! and group messages through per-group sessions.
use vstd::prelude::*;
use vstd::utf8::*;

use crate::bytes::bytes_equal;
use crate::error::EncryptionError;
use crate::primitives::{
    aes256gcm_seal, ed25519_signature, ed25519_verifying_key, x25519_public_key, AES_GCM_MAX_PLAINTEXT,
};
use crate::signal_protocol::{
    bytes_result, latest_published, message_result,
    opened_message, published_bundle_matches, received_group_message, sealed_group_message,
    sealed_message, EncryptedMessage, GroupSession, IdentityKey, PreKeyBundle, PublishedView,
    SignalProtocol,
};

verus! {

broadcast use vstd::utf8::group_utf8_lib;

/// The index of the first session for the group `id`.
pub open spec fn find_group(s: Seq<GroupSession>, id: Seq<char>) -> Option<int>
    decreases s.len(),
{
    if s.len() == 0 {
        None
    } else if s[0].group_id_spec() == id {
        Some(0)
    } else {
        match find_group(s.drop_first(), id) {
            Some(j) => Some(j + 1),
            None => None,
        }
    }
}

/// `find_group` finds the first session with the id, and `None` means there
/// is none.
pub proof fn lemma_find_group(s: Seq<GroupSession>, id: Seq<char>)
    ensures
        match find_group(s, id) {
            Some(i) => 0 <= i < s.len() && s[i].group_id_spec() == id && forall|j: int|
                0 <= j < i ==> (#[trigger] s[j]).group_id_spec() != id,
            None => forall|j: int| 0 <= j < s.len() ==> (#[trigger] s[j]).group_id_spec() != id,
        },
    decreases s.len(),
{
    if s.len() > 0 && s[0].group_id_spec() != id {
        lemma_find_group(s.drop_first(), id);
        assert forall|j: int| 1 <= j < s.len() implies s[j] == s.drop_first()[j - 1] by {}
    }
}

/// Two session lists with the same ids in the same places find the same
/// places.
proof fn lemma_find_group_same_ids(s: Seq<GroupSession>, t: Seq<GroupSession>, id: Seq<char>)
    requires
        s.len() == t.len(),
        forall|j: int| 0 <= j < s.len() ==> (#[trigger] s[j]).group_id_spec() == t[j].group_id_spec(),
    ensures
        find_group(s, id) == find_group(t, id),
    decreases s.len(),
{
    if s.len() > 0 {
        assert(s[0].group_id_spec() == t[0].group_id_spec());
        assert forall|j: int| 0 <= j < s.drop_first().len() implies (#[trigger] s.drop_first()[j]).group_id_spec()
            == t.drop_first()[j].group_id_spec() by {
            assert(s.drop_first()[j] == s[j + 1]);
            assert(t.drop_first()[j] == t[j + 1]);
        }
        lemma_find_group_same_ids(s.drop_first(), t.drop_first(), id);
    }
}

/// The session of a group in a list of sessions.
pub open spec fn group_in(s: Seq<GroupSession>, id: Seq<char>) -> Option<GroupSession> {
    match find_group(s, id) {
        Some(i) => Some(s[i]),
        None => None,
    }
}

/// The session after encrypting a message with it.
pub open spec fn counted(before: GroupSession, after: GroupSession, sent: bool) -> bool {
    &&& after.group_id_spec() == before.group_id_spec()
    &&& after.key() == before.key()
    &&& after.accepted() == before.accepted()
    &&& after.counter() == if sent {
        before.counter() + 1
    } else {
        before.counter() as int
    }
}

/// The session after decrypting `data` with it: only the list of accepted
/// nonces changes, and only when the message is accepted, which records its
/// nonce.
pub open spec fn received(before: GroupSession, after: GroupSession, data: Seq<u8>, accepted: bool) -> bool {
    &&& after.group_id_spec() == before.group_id_spec()
    &&& after.key() == before.key()
    &&& after.counter() == before.counter()
    &&& after.accepted() == if accepted {
        before.accepted().push(data.take(12))
    } else {
        before.accepted()
    }
}

/// No two sessions in the list belong to the same group.
pub open spec fn ids_unique(s: Seq<GroupSession>) -> bool {
    forall|i: int, j: int|
        0 <= i < j < s.len() ==> (#[trigger] s[i]).group_id_spec() != (#[trigger] s[j]).group_id_spec()
}

/// End-to-end encryption for one user: the X3DH protocol instance and the
/// group sessions, one per group id.
pub struct EncryptionService {
    protocol: SignalProtocol,
    group_sessions: Vec<GroupSession>,
}

impl EncryptionService {
    /// Each group has at most one session.
    #[verifier::type_invariant]
    closed spec fn inv(&self) -> bool {
        ids_unique(self.group_sessions@)
    }

    /// The pre-keys published through this service.
    pub closed spec fn published(&self) -> Seq<PublishedView> {
        self.protocol.published_spec()
    }

    /// The session of the group `id`, if one was created.
    pub closed spec fn group_session(&self, id: Seq<char>) -> Option<GroupSession> {
        group_in(self.group_sessions@, id)
    }

    /// Creates a service with no published pre-keys and no group sessions.
    pub fn new() -> (r: Result<Self, EncryptionError>)
        ensures
            r matches Ok(s) && s.published() == Seq::<PublishedView>::empty() && forall|id: Seq<char>|
                #[trigger] s.group_session(id) is None,
    {
        let protocol = match SignalProtocol::new() {
            Ok(p) => p,
            Err(e) => {
                return Err(e);
            },
        };
        Ok(Self { protocol, group_sessions: Vec::new() })
    }

    /// Generates an identity key pair.
    pub fn generate_identity(&mut self) -> (r: Result<IdentityKey, EncryptionError>)
        ensures
            final(self).published() == old(self).published(),
            forall|id: Seq<char>| #[trigger] final(self).group_session(id) == old(self).group_session(id),
            r matches Ok(k) && k.secret_spec().len() == 32 && k.public_spec() == x25519_public_key(
                k.secret_spec(),
            ) && k.public_spec().len() == 32,
    {
        proof {
            use_type_invariant(&*self);
        }
        let mut protocol = SignalProtocol::empty();
        std::mem::swap(&mut protocol, &mut self.protocol);
        let r = protocol.generate_identity();
        self.protocol = protocol;
        r
    }

    /// Publishes pre-keys for an identity and returns the bundle.
    pub fn generate_prekey_bundle(&mut self, identity_key: &IdentityKey) -> (r: Result<PreKeyBundle, EncryptionError>)
        ensures
            forall|id: Seq<char>| #[trigger] final(self).group_session(id) == old(self).group_session(id),
            r is Ok <==> identity_key.secret_spec().len() == 32,
            r matches Err(e) ==> e == EncryptionError::InvalidIdentitySecret && final(self).published()
                == old(self).published(),
            r matches Ok(b) ==> {
                &&& b.identity_key@ == identity_key.public_spec()
                &&& b.identity_signing_key@ == ed25519_verifying_key(identity_key.secret_spec())
                &&& b.signed_prekey.id_spec() == 1
                &&& b.signed_prekey.signature_spec() == ed25519_signature(
                    identity_key.secret_spec(),
                    b.signed_prekey.public_spec(),
                )
                &&& b.signed_prekey.public_spec().len() == 32
                &&& b.signed_prekey.signature_spec().len() == 64
                &&& b.signed_prekey.secret_spec().len() == 0
                &&& b.onetime_prekey matches Some(o) && o.id_spec() == 1 && o.public_spec().len() == 32
                    && o.secret_spec().len() == 0
                &&& final(self).published().len() == old(self).published().len() + 1
                &&& final(self).published().drop_last() == old(self).published()
                &&& published_bundle_matches(final(self).published().last(), b)
            },
    {
        proof {
            use_type_invariant(&*self);
        }
        let mut protocol = SignalProtocol::empty();
        std::mem::swap(&mut protocol, &mut self.protocol);
        let r = protocol.generate_prekey_bundle(identity_key);
        self.protocol = protocol;
        r
    }

    /// Encrypts a one-to-one message for a recipient's bundle.
    pub fn encrypt_message(&mut self, recipient_bundle: &PreKeyBundle, plaintext: &[u8]) -> (r: Result<EncryptedMessage, EncryptionError>)
        ensures
            final(self).published() == old(self).published(),
            forall|id: Seq<char>| #[trigger] final(self).group_session(id) == old(self).group_session(id),
            exists|e: Seq<u8>, n: Seq<u8>|
                e.len() == 32 && n.len() == 12 && message_result(
                    r,
                    sealed_message(*recipient_bundle, plaintext@, e, n),
                ),
            r matches Ok(m) ==> m.ephemeral_public@.len() == 32 && m.nonce@.len() == 12
                && m.ciphertext@.len() == plaintext@.len() + 16,
    {
        proof {
            use_type_invariant(&*self);
        }
        let mut protocol = SignalProtocol::empty();
        std::mem::swap(&mut protocol, &mut self.protocol);
        let r = protocol.encrypt(recipient_bundle, plaintext);
        self.protocol = protocol;
        r
    }

    /// Decrypts a one-to-one message sent to pre-keys published here. A
    /// message encrypted for the bundle most recently published here for the
    /// identity decrypts to its plaintext.
    pub fn decrypt_message(&mut self, identity_key: &IdentityKey, encrypted: &EncryptedMessage) -> (r: Result<Vec<u8>, EncryptionError>)
        requires
            encrypted.ephemeral_public@.len() == 32 && identity_key.secret_spec().len() == 32
                ==> encrypted.nonce@.len() == 12,
        ensures
            final(self).published() == old(self).published(),
            forall|id: Seq<char>| #[trigger] final(self).group_session(id) == old(self).group_session(id),
            bytes_result(
                r,
                opened_message(
                    old(self).published(),
                    identity_key.public_spec(),
                    identity_key.secret_spec(),
                    encrypted@,
                ),
            ),
            forall|b: PreKeyBundle, pt: Seq<u8>, e: Seq<u8>, n: Seq<u8>|
                #[trigger] sealed_message(b, pt, e, n) == Ok::<(Seq<u8>, Seq<u8>, Seq<u8>), EncryptionError>(encrypted@)
                    && e.len() == 32 && encrypted.ephemeral_public@.len() == 32
                    && identity_key.secret_spec().len() == 32
                    && identity_key.public_spec() == x25519_public_key(identity_key.secret_spec())
                    && (latest_published(old(self).published(), identity_key.public_spec())
                    matches Some(i) && published_bundle_matches(old(self).published()[i], b))
                    ==> (r matches Ok(p) && p@ == pt),
    {
        proof {
            use_type_invariant(&*self);
        }
        let mut protocol = SignalProtocol::empty();
        std::mem::swap(&mut protocol, &mut self.protocol);
        let r = protocol.decrypt(identity_key, encrypted);
        self.protocol = protocol;
        r
    }

    /// The index of the session of the group `group_id`.
    fn find_session(&self, group_id: &str) -> (r: Option<usize>)
        ensures
            match r {
                Some(i) => find_group(self.group_sessions@, group_id@) == Some(i as int) && i
                    < self.group_sessions@.len(),
                None => find_group(self.group_sessions@, group_id@) is None,
            },
    {
        proof {
            lemma_find_group(self.group_sessions@, group_id@);
        }
        let n = self.group_sessions.len();
        let mut i: usize = 0;
        while i < n
            invariant
                n == self.group_sessions@.len(),
                i <= n,
                forall|j: int| 0 <= j < i ==> (#[trigger] self.group_sessions@[j]).group_id_spec() != group_id@,
                match find_group(self.group_sessions@, group_id@) {
                    Some(k) => 0 <= k < n && self.group_sessions@[k].group_id_spec() == group_id@
                        && forall|j: int| 0 <= j < k ==> (#[trigger] self.group_sessions@[j]).group_id_spec() != group_id@,
                    None => forall|j: int| 0 <= j < n ==> (#[trigger] self.group_sessions@[j]).group_id_spec() != group_id@,
                },
            decreases n - i,
        {
            let same = bytes_equal(self.group_sessions[i].id().as_bytes(), group_id.as_bytes());
            proof {
                let a = self.group_sessions@[i as int].group_id_spec();
                encode_utf8_decode_utf8(a);
                encode_utf8_decode_utf8(group_id@);
                assert(same == (a == group_id@));
            }
            if same {
                return Some(i);
            }
            i = i + 1;
        }
        None
    }

    /// Creates a session with a random key for a group, replacing an
    /// earlier one, and returns a copy of it.
    pub fn create_group_session(&mut self, group_id: String) -> (r: Result<GroupSession, EncryptionError>)
        ensures
            final(self).published() == old(self).published(),
            r matches Ok(s) && s.group_id_spec() == group_id@ && s.key().len() == 32 && s.counter() == 0
                && s.accepted() == Seq::<Seq<u8>>::empty() && (final(self).group_session(group_id@) matches Some(
                t,
            ) && t.group_id_spec() == group_id@ && t.key() == s.key() && t.counter() == 0 && t.accepted()
                == Seq::<Seq<u8>>::empty()),
            forall|id: Seq<char>|
                id != group_id@ ==> #[trigger] final(self).group_session(id) == old(self).group_session(id),
    {
        let session = match GroupSession::new(group_id.clone()) {
            Ok(s) => s,
            Err(e) => {
                return Err(e);
            },
        };
        let copy = session.duplicate();
        let ghost old_sessions = self.group_sessions@;
        let ghost gid = group_id@;
        proof {
            lemma_find_group(old_sessions, gid);
        }
        match self.find_session(group_id.as_str()) {
            Some(i) => {
                proof {
                    use_type_invariant(&*self);
                }
                let mut sessions: Vec<GroupSession> = Vec::new();
                std::mem::swap(&mut sessions, &mut self.group_sessions);
                sessions.set(i, session);
                proof {
                    assert forall|a: int, b: int| 0 <= a < b < sessions@.len() implies (#[trigger] sessions@[a]).group_id_spec()
                        != (#[trigger] sessions@[b]).group_id_spec() by {
                        assert(old_sessions[a].group_id_spec() != old_sessions[b].group_id_spec());
                    }
                }
                self.group_sessions = sessions;
                proof {
                    let s2 = self.group_sessions@;
                    assert(old_sessions[i as int].group_id_spec() == gid);
                    assert(s2[i as int].group_id_spec() == gid);
                    assert forall|j: int| 0 <= j < s2.len() implies (#[trigger] s2[j]).group_id_spec()
                        == old_sessions[j].group_id_spec() by {
                        if j != i {
                            assert(s2[j] == old_sessions[j]);
                        }
                    }
                    assert forall|id: Seq<char>| id != gid implies #[trigger] group_in(s2, id) == group_in(old_sessions, id) by {
                        lemma_find_group_same_ids(s2, old_sessions, id);
                        lemma_find_group(old_sessions, id);
                    }
                    lemma_find_group_same_ids(s2, old_sessions, gid);
                }
            },
            None => {
                proof {
                    use_type_invariant(&*self);
                }
                let mut sessions: Vec<GroupSession> = Vec::new();
                std::mem::swap(&mut sessions, &mut self.group_sessions);
                sessions.push(session);
                proof {
                    assert forall|a: int, b: int| 0 <= a < b < sessions@.len() implies (#[trigger] sessions@[a]).group_id_spec()
                        != (#[trigger] sessions@[b]).group_id_spec() by {
                        if b == old_sessions.len() {
                            assert(old_sessions[a].group_id_spec() != gid);
                        } else {
                            assert(old_sessions[a].group_id_spec() != old_sessions[b].group_id_spec());
                        }
                    }
                }
                self.group_sessions = sessions;
                proof {
                    let s2 = self.group_sessions@;
                    assert forall|id: Seq<char>| id != gid implies #[trigger] group_in(s2, id) == group_in(old_sessions, id) by {
                        lemma_find_group(s2, id);
                        lemma_find_group(old_sessions, id);
                        match find_group(old_sessions, id) {
                            Some(k) => {
                                assert(s2[k] == old_sessions[k]);
                                assert forall|j: int| 0 <= j < k implies (#[trigger] s2[j]).group_id_spec() != id by {
                                    assert(s2[j] == old_sessions[j]);
                                }
                                match find_group(s2, id) {
                                    Some(m) => {
                                        if m < k {
                                            assert(s2[m] == old_sessions[m]);
                                        }
                                    },
                                    None => {},
                                }
                            },
                            None => {
                                match find_group(s2, id) {
                                    Some(m) => {
                                        if m < old_sessions.len() {
                                            assert(s2[m] == old_sessions[m]);
                                        }
                                    },
                                    None => {},
                                }
                            },
                        }
                    }
                    lemma_find_group(s2, gid);
                    match find_group(s2, gid) {
                        Some(m) => {
                            if m < old_sessions.len() {
                                assert(s2[m] == old_sessions[m]);
                            }
                        },
                        None => {
                            assert(s2[old_sessions.len() as int].group_id_spec() == gid);
                        },
                    }
                }
            },
        }
        Ok(copy)
    }

    /// Encrypts a message for a group with its session.
    pub fn encrypt_group_message(&mut self, group_id: &str, plaintext: &[u8]) -> (r: Result<Vec<u8>, EncryptionError>)
        requires
            old(self).group_session(group_id@) matches Some(s) ==> (s.counter() < u32::MAX || s.key().len()
                != 32 || plaintext@.len() > AES_GCM_MAX_PLAINTEXT),
        ensures
            final(self).published() == old(self).published(),
            forall|id: Seq<char>|
                id != group_id@ ==> #[trigger] final(self).group_session(id) == old(self).group_session(id),
            match old(self).group_session(group_id@) {
                None => r == Err::<Vec<u8>, EncryptionError>(EncryptionError::GroupSessionNotFound)
                    && final(self).group_session(group_id@) is None,
                Some(s) => (exists|suffix: Seq<u8>|
                    suffix.len() == 8 && bytes_result(
                        r,
                        sealed_group_message(s.key(), s.counter(), plaintext@, suffix),
                    )) && (final(self).group_session(group_id@) matches Some(t) && counted(s, t, r is Ok))
                    && (r matches Ok(v) ==> s.key().len() == 32 && plaintext@.len() <= AES_GCM_MAX_PLAINTEXT
                    && v@ == v@.take(12) + aes256gcm_seal(s.key(), v@.take(12), plaintext@)),
            },
            r matches Ok(v) ==> v@.len() == plaintext@.len() + 28,
    {
        let ghost old_sessions = self.group_sessions@;
        let ghost gid = group_id@;
        let i = match self.find_session(group_id) {
            Some(i) => i,
            None => {
                return Err(EncryptionError::GroupSessionNotFound);
            },
        };
        proof {
            lemma_find_group(old_sessions, gid);
            assert(group_in(old_sessions, gid) == Some(old_sessions[i as int]));
        }
        let mut session = self.group_sessions[i].duplicate();
        let r = session.encrypt(plaintext);
        proof {
            use_type_invariant(&*self);
        }
        let mut sessions: Vec<GroupSession> = Vec::new();
        std::mem::swap(&mut sessions, &mut self.group_sessions);
        sessions.set(i, session);
        proof {
            assert forall|a: int, b: int| 0 <= a < b < sessions@.len() implies (#[trigger] sessions@[a]).group_id_spec()
                != (#[trigger] sessions@[b]).group_id_spec() by {
                assert(old_sessions[a].group_id_spec() != old_sessions[b].group_id_spec());
            }
        }
        self.group_sessions = sessions;
        proof {
            let s2 = self.group_sessions@;
            lemma_find_group(old_sessions, gid);
            assert forall|j: int| 0 <= j < s2.len() implies (#[trigger] s2[j]).group_id_spec() == old_sessions[j].group_id_spec() by {}
            assert forall|id: Seq<char>| id != gid implies #[trigger] group_in(s2, id) == group_in(old_sessions, id) by {
                lemma_find_group_same_ids(s2, old_sessions, id);
                lemma_find_group(old_sessions, id);
            }
            lemma_find_group_same_ids(s2, old_sessions, gid);
        }
        r
    }

    /// Decrypts a message for a group with its session, which records the
    /// nonce of each message it accepts and refuses replayed ones. Data the
    /// group's session key sealed under a nonce it has not accepted before
    /// decrypts to its plaintext.
    pub fn decrypt_group_message(&mut self, group_id: &str, ciphertext: &[u8]) -> (r: Result<Vec<u8>, EncryptionError>)
        ensures
            final(self).published() == old(self).published(),
            forall|id: Seq<char>|
                id != group_id@ ==> #[trigger] final(self).group_session(id) == old(self).group_session(id),
            match old(self).group_session(group_id@) {
                None => r == Err::<Vec<u8>, EncryptionError>(EncryptionError::GroupSessionNotFound)
                    && final(self).group_session(group_id@) is None,
                Some(s) => bytes_result(r, received_group_message(s.key(), s.accepted(), ciphertext@))
                    && (final(self).group_session(group_id@) matches Some(t) && received(s, t, ciphertext@, r is Ok))
                    && forall|nonce: Seq<u8>, pt: Seq<u8>|
                    nonce.len() == 12 && pt.len() <= AES_GCM_MAX_PLAINTEXT && s.key().len() == 32
                        && !s.accepted().contains(nonce)
                        && ciphertext@ == nonce + #[trigger] aes256gcm_seal(s.key(), nonce, pt)
                        ==> (r matches Ok(p) && p@ == pt),
            },
    {
        let ghost old_sessions = self.group_sessions@;
        let ghost gid = group_id@;
        let i = match self.find_session(group_id) {
            Some(i) => i,
            None => {
                return Err(EncryptionError::GroupSessionNotFound);
            },
        };
        proof {
            lemma_find_group(old_sessions, gid);
            assert(group_in(old_sessions, gid) == Some(old_sessions[i as int]));
        }
        let mut session = self.group_sessions[i].duplicate();
        let r = session.decrypt(ciphertext);
        proof {
            use_type_invariant(&*self);
        }
        let mut sessions: Vec<GroupSession> = Vec::new();
        std::mem::swap(&mut sessions, &mut self.group_sessions);
        sessions.set(i, session);
        proof {
            assert forall|a: int, b: int| 0 <= a < b < sessions@.len() implies (#[trigger] sessions@[a]).group_id_spec()
                != (#[trigger] sessions@[b]).group_id_spec() by {
                assert(old_sessions[a].group_id_spec() != old_sessions[b].group_id_spec());
            }
        }
        self.group_sessions = sessions;
        proof {
            let s2 = self.group_sessions@;
            lemma_find_group(old_sessions, gid);
            assert forall|j: int| 0 <= j < s2.len() implies (#[trigger] s2[j]).group_id_spec() == old_sessions[j].group_id_spec() by {}
            assert forall|id: Seq<char>| id != gid implies #[trigger] group_in(s2, id) == group_in(old_sessions, id) by {
                lemma_find_group_same_ids(s2, old_sessions, id);
                lemma_find_group(old_sessions, id);
            }
            lemma_find_group_same_ids(s2, old_sessions, gid);
        }
        r
    }
}

impl Default for EncryptionService {
    /// A service with no published pre-keys and no group sessions.
    fn default() -> (r: Self)
        ensures
            r.published() == Seq::<PublishedView>::empty(),
            forall|id: Seq<char>| #[trigger] r.group_session(id) is None,
    {
        match Self::new() {
            Ok(s) => s,
            Err(_) => {
                proof {
                    assert(false);
                }
                Self { protocol: SignalProtocol::empty(), group_sessions: Vec::new() }
            },
        }
    }
}


} // verus!
