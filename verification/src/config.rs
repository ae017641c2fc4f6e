//! The write-once configuration: network selection, key identifiers, and the
//! per-canister public keys, set at initialization and completed by a
//! one-time asynchronous key fetch.

use vstd::prelude::*;

verus! {

/// The bitcoin network the engine works against.
#[derive(Clone, Copy, Debug, PartialEq, Eq, Structural)]
pub enum BitcoinNetwork {
    Mainnet,
    Testnet,
    Regtest,
}

/// A fetched threshold-ECDSA public key with its chain code.
pub struct EcdsaPublicKey {
    pub public_key: Vec<u8>,
    pub chain_code: Vec<u8>,
}

/// A fetched threshold-Schnorr public key with its chain code.
pub struct SchnorrPublicKey {
    pub public_key: Vec<u8>,
    pub chain_code: Vec<u8>,
}

/// The curve a threshold-ECDSA key lives on.
#[derive(Clone, Copy, Debug, PartialEq, Eq, Structural)]
pub enum EcdsaCurve {
    Secp256k1,
}

/// The signature scheme of a threshold-Schnorr key.
#[derive(Clone, Copy, Debug, PartialEq, Eq, Structural)]
pub enum SchnorrAlgorithm {
    Bip340secp256k1,
}

/// Identifies the threshold-ECDSA key by curve and name.
pub struct EcdsaKeyId {
    pub curve: EcdsaCurve,
    pub name: String,
}

/// Identifies the threshold-Schnorr key by algorithm and name.
pub struct SchnorrKeyId {
    pub algorithm: SchnorrAlgorithm,
    pub name: String,
}

/// The key name the signing service uses for each network.
pub open spec fn keyname_for(network: BitcoinNetwork) -> Seq<char> {
    match network {
        BitcoinNetwork::Mainnet => "key_1"@,
        BitcoinNetwork::Testnet => "test_key_1"@,
        BitcoinNetwork::Regtest => "dfx_test_key"@,
    }
}

/// The configuration record. Every field starts unset; initialization fills
/// the identities and the network, and the asynchronous key fetch fills the
/// two public keys.
pub struct Config {
    pub auth: Option<Vec<u8>>,
    pub commission_receiver: Option<Vec<u8>>,
    pub bitcoin_network: Option<BitcoinNetwork>,
    pub ecdsa_public_key: Option<EcdsaPublicKey>,
    pub schnorr_public_key: Option<SchnorrPublicKey>,
    pub keyname: Option<String>,
}

fn copy_bytes(b: &Vec<u8>) -> (r: Vec<u8>)
    ensures
        r@ == b@,
{
    vstd::slice::slice_to_vec(b.as_slice())
}

impl Config {
    /// A configuration with every field unset.
    pub fn empty() -> (r: Config)
        ensures
            r.auth.is_none(),
            r.commission_receiver.is_none(),
            r.bitcoin_network.is_none(),
            r.ecdsa_public_key.is_none(),
            r.schnorr_public_key.is_none(),
            r.keyname.is_none(),
    {
        Config {
            auth: None,
            commission_receiver: None,
            bitcoin_network: None,
            ecdsa_public_key: None,
            schnorr_public_key: None,
            keyname: None,
        }
    }

    /// The selected network. Initialization must have run first: an
    /// uninitialized configuration has no network to read.
    pub fn bitcoin_network(&self) -> (r: BitcoinNetwork)
        requires
            self.bitcoin_network.is_some(),
        ensures
            r == self.bitcoin_network.unwrap(),
    {
        match self.bitcoin_network {
            Some(network) => network,
            None => unreached(),
        }
    }

    /// The principal commissions are paid to; an unset field falls back to
    /// the canister's own identity.
    pub fn commission_receiver(&self, own_id: &Vec<u8>) -> (r: Vec<u8>)
        ensures
            r@ == (match self.commission_receiver {
                Some(cr) => cr@,
                None => own_id@,
            }),
    {
        match &self.commission_receiver {
            Some(cr) => copy_bytes(cr),
            None => copy_bytes(own_id),
        }
    }

    /// The fetched ECDSA public key. The one-time key fetch must have
    /// completed before anything signs.
    pub fn ecdsa_public_key(&self) -> (r: EcdsaPublicKey)
        requires
            self.ecdsa_public_key.is_some(),
        ensures
            r.public_key@ == self.ecdsa_public_key.unwrap().public_key@,
            r.chain_code@ == self.ecdsa_public_key.unwrap().chain_code@,
    {
        match &self.ecdsa_public_key {
            Some(pk) => EcdsaPublicKey {
                public_key: copy_bytes(&pk.public_key),
                chain_code: copy_bytes(&pk.chain_code),
            },
            None => unreached(),
        }
    }

    /// The fetched Schnorr public key. The one-time key fetch must have
    /// completed before anything is etched.
    pub fn schnorr_public_key(&self) -> (r: SchnorrPublicKey)
        requires
            self.schnorr_public_key.is_some(),
        ensures
            r.public_key@ == self.schnorr_public_key.unwrap().public_key@,
            r.chain_code@ == self.schnorr_public_key.unwrap().chain_code@,
    {
        match &self.schnorr_public_key {
            Some(pk) => SchnorrPublicKey {
                public_key: copy_bytes(&pk.public_key),
                chain_code: copy_bytes(&pk.chain_code),
            },
            None => unreached(),
        }
    }

    /// The configured key name. Initialization must have run first: an
    /// uninitialized configuration names no key.
    pub fn keyname(&self) -> (r: String)
        requires
            self.keyname.is_some(),
        ensures
            r@ == self.keyname.unwrap()@,
    {
        match &self.keyname {
            Some(keyname) => keyname.clone(),
            None => unreached(),
        }
    }

    /// The threshold-ECDSA key identifier: the configured name on secp256k1.
    pub fn ecdsakeyid(&self) -> (r: EcdsaKeyId)
        requires
            self.keyname.is_some(),
        ensures
            r.curve == EcdsaCurve::Secp256k1,
            r.name@ == self.keyname.unwrap()@,
    {
        let name = self.keyname();
        EcdsaKeyId { name, curve: EcdsaCurve::Secp256k1 }
    }

    /// The threshold-Schnorr key identifier: the configured name on
    /// BIP-340 secp256k1.
    pub fn schnorrkeyid(&self) -> (r: SchnorrKeyId)
        requires
            self.keyname.is_some(),
        ensures
            r.algorithm == SchnorrAlgorithm::Bip340secp256k1,
            r.name@ == self.keyname.unwrap()@,
    {
        let name = self.keyname();
        SchnorrKeyId { algorithm: SchnorrAlgorithm::Bip340secp256k1, name }
    }

    /// The recurring retry interval for reveal submission, in seconds: one
    /// minute on a local network, one hour elsewhere.
    pub fn get_timer_for_txn_submission(&self) -> (r: u64)
        requires
            self.bitcoin_network.is_some(),
        ensures
            r == (if self.bitcoin_network.unwrap() == BitcoinNetwork::Regtest {
                60u64
            } else {
                3600u64
            }),
    {
        match self.bitcoin_network() {
            BitcoinNetwork::Regtest => 60,
            _ => 60 * 60,
        }
    }

    /// Applies the one-time initialization: selects the network and its key
    /// name, and records who may administer and who receives commissions,
    /// falling back to the caller for either when unset.
    pub fn apply_init(
        &mut self,
        bitcoin_network: BitcoinNetwork,
        caller: &Vec<u8>,
        auth: Option<Vec<u8>>,
        commission_receiver: Option<Vec<u8>>,
    )
        ensures
            final(self).bitcoin_network == Some(bitcoin_network),
            final(self).keyname.is_some() && final(self).keyname.unwrap()@ == keyname_for(
                bitcoin_network,
            ),
            final(self).auth.is_some(),
            final(self).auth.unwrap()@ == (match auth {
                Some(a) => a@,
                None => caller@,
            }),
            final(self).commission_receiver.is_some(),
            final(self).commission_receiver.unwrap()@ == (match commission_receiver {
                Some(cr) => cr@,
                None => caller@,
            }),
            final(self).ecdsa_public_key == old(self).ecdsa_public_key,
            final(self).schnorr_public_key == old(self).schnorr_public_key,
    {
        let keyname: String = match bitcoin_network {
            BitcoinNetwork::Mainnet => "key_1".to_owned(),
            BitcoinNetwork::Testnet => "test_key_1".to_owned(),
            BitcoinNetwork::Regtest => "dfx_test_key".to_owned(),
        };
        let auth_v: Vec<u8> = match auth {
            Some(a) => a,
            None => copy_bytes(caller),
        };
        let cr_v: Vec<u8> = match commission_receiver {
            Some(cr) => cr,
            None => copy_bytes(caller),
        };
        self.keyname = Some(keyname);
        self.auth = Some(auth_v);
        self.bitcoin_network = Some(bitcoin_network);
        self.commission_receiver = Some(cr_v);
    }

    /// Completes the one-time asynchronous key fetch: stores both fetched
    /// public keys.
    pub fn set_public_keys(&mut self, ecdsa: EcdsaPublicKey, schnorr: SchnorrPublicKey)
        ensures
            final(self).ecdsa_public_key == Some(ecdsa),
            final(self).schnorr_public_key == Some(schnorr),
            final(self).auth == old(self).auth,
            final(self).commission_receiver == old(self).commission_receiver,
            final(self).bitcoin_network == old(self).bitcoin_network,
            final(self).keyname == old(self).keyname,
    {
        self.ecdsa_public_key = Some(ecdsa);
        self.schnorr_public_key = Some(schnorr);
    }
}

} // verus!
