//! The configuration options that the engine recognizes.

use vstd::prelude::*;
use crate::decimal::{parse_u128, parsed_u128};
use crate::hexfmt::has_0x;

verus! {

/// The lowercase form of a string, as `str::to_lowercase` gives it.
pub uninterp spec fn lowercase(s: Seq<char>) -> Seq<char>;

/// `str::to_lowercase`: the lowercase form of the string.
#[verifier::external_body]
fn to_lowercase(s: &str) -> (r: String)
    ensures
        r@ == lowercase(s@),
{
    s.to_lowercase()
}

/// Network configuration.
#[derive(Debug, Clone)]
pub struct NetworkConfig {
    /// RPC URL for the network.
    pub rpc_url: String,
    /// Chain ID.
    pub chain_id: u64,
    /// Vault contract address; empty until the vault is deployed.
    pub vault_address: String,
    /// Block explorer URL (optional).
    pub explorer_url: Option<String>,
}

/// Whether a network configuration is that of the Mantle Sepolia testnet,
/// with no vault set.
pub open spec fn is_sepolia(c: NetworkConfig) -> bool {
    &&& c.rpc_url@ == "https://rpc.sepolia.mantle.xyz"@
    &&& c.chain_id == 5003
    &&& c.vault_address@.len() == 0
    &&& c.explorer_url is Some
    &&& c.explorer_url->Some_0@ == "https://explorer.sepolia.mantle.xyz"@
}

/// Whether a network configuration is that of the Mantle main network, with
/// no vault set.
pub open spec fn is_mainnet(c: NetworkConfig) -> bool {
    &&& c.rpc_url@ == "https://rpc.mantle.xyz"@
    &&& c.chain_id == 5000
    &&& c.vault_address@.len() == 0
    &&& c.explorer_url is Some
    &&& c.explorer_url->Some_0@ == "https://explorer.mantle.xyz"@
}

/// Whether a prover configuration is the default one.
pub open spec fn is_default_prover(c: ProverConfig) -> bool {
    c.threads == 4 && c.cache_proofs && c.circuits_path is None
}

/// Whether a sync configuration is the default one.
pub open spec fn is_default_sync(c: SyncConfig) -> bool {
    &&& c.poll_interval_secs == 12
    &&& c.confirmations == 2
    &&& c.deployment_block is None
    &&& c.indexer_url is None
}

impl NetworkConfig {
    /// Mantle Sepolia testnet configuration.
    pub fn sepolia() -> (c: Self)
        ensures
            is_sepolia(c),
    {
        NetworkConfig {
            rpc_url: String::from_str("https://rpc.sepolia.mantle.xyz"),
            chain_id: 5003,
            vault_address: String::new(),
            explorer_url: Some(String::from_str("https://explorer.sepolia.mantle.xyz")),
        }
    }

    /// Mantle mainnet configuration.
    pub fn mainnet() -> (c: Self)
        ensures
            is_mainnet(c),
    {
        NetworkConfig {
            rpc_url: String::from_str("https://rpc.mantle.xyz"),
            chain_id: 5000,
            vault_address: String::new(),
            explorer_url: Some(String::from_str("https://explorer.mantle.xyz")),
        }
    }
}

impl Default for NetworkConfig {
    fn default() -> (c: Self)
        ensures
            is_sepolia(c),
    {
        NetworkConfig::sepolia()
    }
}

/// Prover configuration.
#[derive(Debug, Clone)]
pub struct ProverConfig {
    /// Number of threads for proof generation.
    pub threads: usize,
    /// Whether to cache proofs.
    pub cache_proofs: bool,
    /// Path to circuits directory.
    pub circuits_path: Option<String>,
}

impl Default for ProverConfig {
    fn default() -> (c: Self)
        ensures
            is_default_prover(c),
    {
        ProverConfig { threads: 4, cache_proofs: true, circuits_path: None }
    }
}

/// Sync configuration.
#[derive(Debug, Clone)]
pub struct SyncConfig {
    /// Poll interval in seconds.
    pub poll_interval_secs: u64,
    /// Number of confirmations to wait for.
    pub confirmations: u64,
    /// Block in which the vault was deployed; the scan starts there.
    pub deployment_block: Option<u64>,
    /// Address of an indexer to take snapshots from.
    pub indexer_url: Option<String>,
}

impl Default for SyncConfig {
    fn default() -> (c: Self)
        ensures
            is_default_sync(c),
    {
        SyncConfig {
            poll_interval_secs: 12,
            confirmations: 2,
            deployment_block: None,
            indexer_url: None,
        }
    }
}

/// Main configuration.
#[derive(Debug, Clone)]
pub struct Config {
    /// Network configuration.
    pub network: NetworkConfig,
    /// Prover configuration.
    pub prover: ProverConfig,
    /// Sync configuration.
    pub sync: SyncConfig,
    /// Data directory; empty until the caller has chosen one.
    pub data_dir: String,
}

impl Config {
    /// Create config for a specific network: `mainnet` in any case of
    /// letters selects the main network, everything else the test network.
    pub fn for_network(network: &str) -> (c: Self)
        ensures
            if lowercase(network@) == "mainnet"@ {
                is_mainnet(c.network)
            } else {
                is_sepolia(c.network)
            },
            is_default_prover(c.prover),
            is_default_sync(c.sync),
            c.data_dir@.len() == 0,
    {
        let lower = to_lowercase(network);
        let network_config = if lower == String::from_str("mainnet") {
            NetworkConfig::mainnet()
        } else {
            NetworkConfig::sepolia()
        };
        Config {
            network: network_config,
            prover: ProverConfig::default(),
            sync: SyncConfig::default(),
            data_dir: String::new(),
        }
    }
}

/// Why a setting is refused.
#[derive(Debug, Clone, PartialEq, Eq)]
pub enum SettingError {
    /// The vault address is not `0x` and 40 more characters.
    InvalidVaultAddress,
    /// The chain id is no number of 64 bits.
    InvalidChainId,
    /// The block number is no number of 64 bits.
    InvalidBlockNumber,
    /// No option has this name; the payload is the name as given.
    UnknownKey(String),
}

/// The options that can be set.
pub ghost enum Setting {
    VaultAddress,
    RpcUrl,
    ChainId,
    DeploymentBlock,
}

/// The option that a name, in lowercase, stands for.
pub open spec fn setting_named(name: Seq<char>) -> Option<Setting> {
    if name == "vault"@ || name == "vault_address"@ || name == "vault-address"@ {
        Some(Setting::VaultAddress)
    } else if name == "rpc"@ || name == "rpc_url"@ || name == "rpc-url"@ {
        Some(Setting::RpcUrl)
    } else if name == "chain_id"@ || name == "chain-id"@ || name == "chainid"@ {
        Some(Setting::ChainId)
    } else if name == "deployment_block"@ || name == "deployment-block"@ {
        Some(Setting::DeploymentBlock)
    } else {
        None
    }
}

/// What a string reads as a number of 64 bits.
pub open spec fn parsed_u64(s: Seq<char>) -> Option<u64> {
    match parsed_u128(s) {
        Some(v) => if v <= u64::MAX {
            Some(v as u64)
        } else {
            None
        },
        None => None,
    }
}

/// Whether a string has the shape of an address: `0x` first, 42 bytes in
/// all.
pub open spec fn address_shaped(s: &str) -> bool {
    has_0x(s@) && s.len() == 42
}

fn named(lower: &String, name: &str) -> (r: bool)
    ensures
        r == (lower@ == name@),
{
    *lower == String::from_str(name)
}

fn parse_u64(s: &str) -> (r: Option<u64>)
    ensures
        r == parsed_u64(s@),
{
    match parse_u128(s) {
        Some(v) => if v <= 0xffff_ffff_ffff_ffff {
            Some(v as u64)
        } else {
            None
        },
        None => None,
    }
}

impl Config {
    /// Set one option by its name; the name may be given in any case of
    /// letters. A value that the option cannot take changes nothing.
    pub fn set(&mut self, key: &str, value: &str) -> (r: Result<(), SettingError>)
        ensures
            match setting_named(lowercase(key@)) {
                None => r is Err && r->Err_0 is UnknownKey && r->Err_0->UnknownKey_0@ == key@
                    && *final(self) == *old(self),
                Some(Setting::VaultAddress) => if address_shaped(value) {
                    r is Ok && final(self).network.vault_address@ == value@ && *final(self) == (
                    Config {
                        network: NetworkConfig {
                            vault_address: final(self).network.vault_address,
                            ..old(self).network
                        },
                        ..*old(self)
                    })
                } else {
                    r == Err::<(), SettingError>(SettingError::InvalidVaultAddress) && *final(self)
                        == *old(self)
                },
                Some(Setting::RpcUrl) => r is Ok && final(self).network.rpc_url@ == value@
                    && *final(self) == (Config {
                    network: NetworkConfig {
                        rpc_url: final(self).network.rpc_url,
                        ..old(self).network
                    },
                    ..*old(self)
                }),
                Some(Setting::ChainId) => match parsed_u64(value@) {
                    Some(id) => r is Ok && *final(self) == (Config {
                        network: NetworkConfig { chain_id: id, ..old(self).network },
                        ..*old(self)
                    }),
                    None => r == Err::<(), SettingError>(SettingError::InvalidChainId) && *final(self)
                        == *old(self),
                },
                Some(Setting::DeploymentBlock) => match parsed_u64(value@) {
                    Some(block) => r is Ok && *final(self) == (Config {
                        sync: SyncConfig { deployment_block: Some(block), ..old(self).sync },
                        ..*old(self)
                    }),
                    None => r == Err::<(), SettingError>(SettingError::InvalidBlockNumber) && *final(self) == *old(self),
                },
            },
    {
        let lower = to_lowercase(key);
        proof {
            reveal_strlit("vault");
            reveal_strlit("vault_address");
            reveal_strlit("vault-address");
            reveal_strlit("rpc");
            reveal_strlit("rpc_url");
            reveal_strlit("rpc-url");
            reveal_strlit("chain_id");
            reveal_strlit("chain-id");
            reveal_strlit("chainid");
            reveal_strlit("deployment_block");
            reveal_strlit("deployment-block");
        }
        if named(&lower, "vault") || named(&lower, "vault_address") || named(&lower, "vault-address") {
            let n = value.unicode_len();
            if !(n >= 2 && value.get_char(0) == '0' && value.get_char(1) == 'x') || value.len()
                != 42 {
                return Err(SettingError::InvalidVaultAddress);
            }
            self.network.vault_address = String::from_str(value);
            Ok(())
        } else if named(&lower, "rpc") || named(&lower, "rpc_url") || named(&lower, "rpc-url") {
            self.network.rpc_url = String::from_str(value);
            Ok(())
        } else if named(&lower, "chain_id") || named(&lower, "chain-id") || named(&lower, "chainid") {
            match parse_u64(value) {
                Some(id) => {
                    self.network.chain_id = id;
                    Ok(())
                },
                None => Err(SettingError::InvalidChainId),
            }
        } else if named(&lower, "deployment_block") || named(&lower, "deployment-block") {
            match parse_u64(value) {
                Some(block) => {
                    self.sync.deployment_block = Some(block);
                    Ok(())
                },
                None => Err(SettingError::InvalidBlockNumber),
            }
        } else {
            Err(SettingError::UnknownKey(String::from_str(key)))
        }
    }
}

impl Default for Config {
    fn default() -> (c: Self)
        ensures
            is_sepolia(c.network),
            is_default_prover(c.prover),
            is_default_sync(c.sync),
            c.data_dir@.len() == 0,
    {
        Config {
            network: NetworkConfig::default(),
            prover: ProverConfig::default(),
            sync: SyncConfig::default(),
            data_dir: String::new(),
        }
    }
}

} // verus!
