//! Argument types and decision logic of the tool's single-shot operations
//! (create metadata, create a fungible token, create a master edition, set
//! a token standard). Building the on-chain instructions, signing and
//! sending belong to the caller; what is decided and computed from plain
//! values is here.
use vstd::prelude::*;

verus! {

/// One creator share of an account's metadata payload.
pub struct Creator {
    pub address: String,
    pub verified: bool,
    pub share: u8,
}

/// The metadata payload a user supplies for the create-metadata operation.
pub struct MetadataData {
    pub name: String,
    pub symbol: String,
    pub uri: String,
    pub seller_fee_basis_points: u16,
    pub creators: Option<Vec<Creator>>,
}

/// A collection reference in the full metadata payload.
pub struct Collection {
    pub verified: bool,
    pub key: String,
}

/// A uses budget in the full metadata payload.
pub struct Uses {
    pub use_method: u8,
    pub remaining: u64,
    pub total: u64,
}

/// The full metadata payload the on-chain program takes.
pub struct MetadataDataV2 {
    pub name: String,
    pub symbol: String,
    pub uri: String,
    pub seller_fee_basis_points: u16,
    pub creators: Option<Vec<Creator>>,
    pub collection: Option<Collection>,
    pub uses: Option<Uses>,
}

impl MetadataData {
    /// Widens a user payload to the full payload: the supplied fields carry
    /// over unchanged, and no collection or uses budget is set.
    pub fn into_v2(self) -> (r: MetadataDataV2)
        ensures
            r.name == self.name,
            r.symbol == self.symbol,
            r.uri == self.uri,
            r.seller_fee_basis_points == self.seller_fee_basis_points,
            r.creators == self.creators,
            r.collection is None,
            r.uses is None,
    {
        MetadataDataV2 {
            name: self.name,
            symbol: self.symbol,
            uri: self.uri,
            seller_fee_basis_points: self.seller_fee_basis_points,
            creators: self.creators,
            collection: None,
            uses: None,
        }
    }
}

/// Arguments of the create-metadata operation. The network client that
/// submits the transaction stays with the caller.
pub struct CreateMetadataArgs {
    pub keypair: Option<String>,
    pub mint: String,
    pub metadata: String,
    pub immutable: bool,
}

/// The three fields a fungible token's metadata file supplies.
pub struct FungibleFields {
    pub name: String,
    pub symbol: String,
    pub uri: String,
}

impl From<FungibleFields> for MetadataDataV2 {
    /// A fungible token's payload: the three supplied fields, no fee, no
    /// creators, no collection, no uses budget.
    fn from(value: FungibleFields) -> (r: MetadataDataV2) {
        MetadataDataV2 {
            name: value.name,
            symbol: value.symbol,
            uri: value.uri,
            seller_fee_basis_points: 0,
            creators: None,
            collection: None,
            uses: None,
        }
    }
}

impl vstd::std_specs::convert::FromSpecImpl<FungibleFields> for MetadataDataV2 {
    open spec fn obeys_from_spec() -> bool {
        true
    }

    open spec fn from_spec(value: FungibleFields) -> MetadataDataV2 {
        MetadataDataV2 {
            name: value.name,
            symbol: value.symbol,
            uri: value.uri,
            seller_fee_basis_points: 0,
            creators: None,
            collection: None,
            uses: None,
        }
    }
}

/// Arguments of the create-master-edition operation. The mint is its
/// account's identifier; the signing keypairs are read by the caller.
pub struct CreateMasterEditionArgs {
    pub keypair: Option<String>,
    pub mint_authority: Option<String>,
    pub mint: String,
    pub max_supply: i64,
}

/// Classifies the user-supplied maximum supply of a master edition: `-1`
/// means unlimited (no maximum is set), a non-negative value is the
/// maximum itself. Anything below `-1` is rejected before this is reached.
pub fn classify_max_supply(max_supply: i64) -> (r: Option<u64>)
    requires
        max_supply >= -1,
    ensures
        r == (if max_supply == -1 {
            Option::<u64>::None
        } else {
            Some(max_supply as u64)
        }),
{
    if max_supply == -1 {
        None
    } else {
        Some(max_supply as u64)
    }
}

/// Arguments of the single set-token-standard operation. The client and
/// the signing keypair stay with the caller.
pub struct SetTokenStandardArgs {
    pub mint_account: String,
}

/// Arguments of the batch set-token-standard run: the engine's whole
/// configuration surface. The network client stays with the caller.
pub struct SetTokenStandardAllArgs {
    pub keypair: Option<String>,
    pub mint_list: Option<String>,
    pub cache_file: Option<String>,
    pub rate_limit: usize,
    pub retries: u8,
}

/// The batch set-token-standard action: one name, one operation per
/// target. The operation submits a transaction, so the caller performs it;
/// the name identifies the action in logs and reports.
pub struct SetTokenStandardAll {}

impl SetTokenStandardAll {
    /// The action's name.
    pub fn name() -> (r: &'static str)
        ensures
            r@ == "set-token-standard-all"@,
    {
        "set-token-standard-all"
    }
}

} // verus!
