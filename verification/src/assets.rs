//! Asset presence and the credential store's decisions. Key files, once
//! present, are never regenerated: absence is the only generation trigger.

use vstd::prelude::*;

use crate::config::Peer;
use crate::text::str_eq;

verus! {

/// What the caller observed of one peer directory on disk: the directory's
/// name, which key files are present, and the client configuration's text
/// when the file is there.
#[derive(Debug, Clone)]
pub struct PeerFiles {
    pub dir: String,
    pub private_key: bool,
    pub public_key: bool,
    pub preshared_key: bool,
    pub client_conf: Option<String>,
}

/// A peer's directory holds every required asset.
pub open spec fn spec_peer_ok(pf: PeerFiles) -> bool {
    pf.private_key && pf.public_key && pf.preshared_key && pf.client_conf is Some
}

/// The first observation whose directory name equals the identity.
pub open spec fn spec_find_dir(files: Seq<PeerFiles>, id: Seq<char>) -> Option<PeerFiles>
    decreases files.len(),
{
    if files.len() == 0 {
        None
    } else if files.first().dir@ == id {
        Some(files.first())
    } else {
        spec_find_dir(files.drop_first(), id)
    }
}

/// Looks a peer's directory up among the observations, exactly as
/// `spec_find_dir` says.
pub fn find_dir(files: &Vec<PeerFiles>, id: &str) -> (r: Option<PeerFiles>)
    ensures
        match r {
            Some(pf) => spec_find_dir(files@, id@) == Some(pf),
            None => spec_find_dir(files@, id@) is None,
        },
{
    let n: usize = files.len();
    assert(files@.skip(0) =~= files@);
    for i in 0..n
        invariant
            n == files@.len(),
            spec_find_dir(files@, id@) == spec_find_dir(files@.skip(i as int), id@),
    {
        proof {
            assert(files@.skip(i as int).first() == files@[i as int]);
            assert(files@.skip(i as int).drop_first() =~= files@.skip(i + 1));
        }
        if str_eq(files[i].dir.as_str(), id) {
            let conf: Option<String> = match &files[i].client_conf {
                Some(t) => Some(t.clone()),
                None => None,
            };
            let pf = PeerFiles {
                dir: files[i].dir.clone(),
                private_key: files[i].private_key,
                public_key: files[i].public_key,
                preshared_key: files[i].preshared_key,
                client_conf: conf,
            };
            assert(pf == files@[i as int]);
            return Some(pf);
        }
    }
    assert(files@.skip(n as int) =~= Seq::<PeerFiles>::empty());
    None
}

/// A required asset is missing: a server key file, a peer's directory, or any
/// of a peer's key files or its client configuration. The peers are given by
/// their identity texts.
pub open spec fn spec_assets_missing(
    server_key: bool,
    server_pub: bool,
    files: Seq<PeerFiles>,
    ids: Seq<Seq<char>>,
) -> bool {
    !(server_key && server_pub && (forall|i: int|
        0 <= i < ids.len() ==> match spec_find_dir(files, #[trigger] ids[i]) {
            Some(pf) => spec_peer_ok(pf),
            None => false,
        }))
}

/// Checks whether any required asset is missing, exactly as
/// `spec_assets_missing` says of the peers' identities.
pub fn assets_missing(
    server_key: bool,
    server_pub: bool,
    files: &Vec<PeerFiles>,
    peers: &Vec<Peer>,
) -> (r: bool)
    ensures
        r == spec_assets_missing(server_key, server_pub, files@, crate::peers::spec_ids(peers@)),
{
    proof {
        assert(forall|i: int|
            0 <= i < peers@.len() ==> crate::peers::spec_ids(peers@)[i] == (
            #[trigger] peers@[i].id)@);
    }
    if !server_key || !server_pub {
        return true;
    }
    let n: usize = peers.len();
    for i in 0..n
        invariant
            n == peers@.len(),
            forall|j: int|
                0 <= j < i ==> match spec_find_dir(files@, (#[trigger] peers@[j].id)@) {
                    Some(pf) => spec_peer_ok(pf),
                    None => false,
                },
    {
        match find_dir(files, peers[i].id.as_str()) {
            Some(pf) => {
                if !(pf.private_key && pf.public_key && pf.preshared_key
                    && pf.client_conf.is_some()) {
                    proof {
                        assert(crate::peers::spec_ids(peers@)[i as int] == peers@[i as int].id@);
                    }
                    return true;
                }
            },
            None => {
                proof {
                    assert(crate::peers::spec_ids(peers@)[i as int] == peers@[i as int].id@);
                }
                return true;
            },
        }
    }
    proof {
        assert(forall|i: int|
            0 <= i < peers@.len() ==> crate::peers::spec_ids(peers@)[i] == (
            #[trigger] peers@[i].id)@);
    }
    false
}

/// An identity that names some observed directory is always found.
pub proof fn lemma_find_dir_some(files: Seq<PeerFiles>, id: Seq<char>)
    requires
        exists|i: int| 0 <= i < files.len() && (#[trigger] files[i].dir)@ == id,
    ensures
        spec_find_dir(files, id) is Some,
    decreases files.len(),
{
    if files.first().dir@ != id {
        let i = choose|i: int| 0 <= i < files.len() && (#[trigger] files[i].dir)@ == id;
        assert(files.drop_first()[i - 1].dir@ == id);
        lemma_find_dir_some(files.drop_first(), id);
    }
}

/// With every observation complete, whatever the lookup finds is complete.
pub proof fn lemma_find_dir_ok(files: Seq<PeerFiles>, id: Seq<char>)
    requires
        forall|i: int| 0 <= i < files.len() ==> spec_peer_ok(#[trigger] files[i]),
    ensures
        match spec_find_dir(files, id) {
            Some(pf) => spec_peer_ok(pf),
            None => true,
        },
    decreases files.len(),
{
    if files.len() > 0 && files.first().dir@ != id {
        assert(forall|i: int|
            0 <= i < files.drop_first().len() ==> spec_peer_ok(#[trigger] files.drop_first()[i]));
        lemma_find_dir_ok(files.drop_first(), id);
    }
}

/// Whether a key is read from its file or freshly generated.
#[derive(Debug, Clone, Copy, PartialEq, Eq, Structural)]
pub enum KeyAction {
    Reuse,
    Generate,
}

/// What the credential store does for the server: the key pair is reused only
/// when both files are present, and regenerated as a pair otherwise.
pub fn ensure_server_keys(private_exists: bool, public_exists: bool) -> (r: KeyAction)
    ensures
        r == (if private_exists && public_exists {
            KeyAction::Reuse
        } else {
            KeyAction::Generate
        }),
{
    if private_exists && public_exists {
        KeyAction::Reuse
    } else {
        KeyAction::Generate
    }
}

/// What the credential store does for one peer.
#[derive(Debug, Clone, Copy, PartialEq, Eq, Structural)]
pub struct PeerKeyPlan {
    pub private: KeyAction,
    pub public: KeyAction,
    pub preshared: KeyAction,
}

/// What the credential store does for a peer: each of the three key files is
/// reused exactly when it is present; the preshared key's fate is independent
/// of the pair's.
pub fn ensure_peer_keys(private_exists: bool, public_exists: bool, psk_exists: bool) -> (r:
    PeerKeyPlan)
    ensures
        r.private == (if private_exists {
            KeyAction::Reuse
        } else {
            KeyAction::Generate
        }),
        r.public == (if public_exists {
            KeyAction::Reuse
        } else {
            KeyAction::Generate
        }),
        r.preshared == (if psk_exists {
            KeyAction::Reuse
        } else {
            KeyAction::Generate
        }),
{
    PeerKeyPlan {
        private: if private_exists {
            KeyAction::Reuse
        } else {
            KeyAction::Generate
        },
        public: if public_exists {
            KeyAction::Reuse
        } else {
            KeyAction::Generate
        },
        preshared: if psk_exists {
            KeyAction::Reuse
        } else {
            KeyAction::Generate
        },
    }
}

/// Key material once it stands on disk: the private and public halves.
#[derive(Debug, Clone)]
pub struct KeyPair {
    pub private: String,
    pub public: String,
}

} // verus!
