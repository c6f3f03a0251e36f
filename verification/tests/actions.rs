use metaboss::actions::{
    classify_max_supply, CreateMasterEditionArgs, CreateMetadataArgs, FungibleFields,
    MetadataData, MetadataDataV2, SetTokenStandardAll, SetTokenStandardAllArgs,
    SetTokenStandardArgs,
};
use metaboss::outcome::Outcome;
use metaboss::EngineError;

fn s(text: &str) -> String {
    text.to_owned()
}

/// A maximum supply of -1 means unlimited; a non-negative value carries
/// over as the maximum itself.
#[test]
fn max_supply_classification() {
    assert_eq!(classify_max_supply(-1), None);
    assert_eq!(classify_max_supply(0), Some(0));
    assert_eq!(classify_max_supply(5), Some(5));
    assert_eq!(classify_max_supply(i64::MAX), Some(i64::MAX as u64));
}

/// Widening a user payload sets no collection and no uses budget and keeps
/// every supplied field.
#[test]
fn user_payload_widens_without_collection_or_uses() {
    let data = MetadataData {
        name: s("Token"),
        symbol: s("TOK"),
        uri: s("https://example.invalid/meta.json"),
        seller_fee_basis_points: 500,
        creators: None,
    };
    let v2 = data.into_v2();
    assert_eq!(v2.name, "Token");
    assert_eq!(v2.symbol, "TOK");
    assert_eq!(v2.uri, "https://example.invalid/meta.json");
    assert_eq!(v2.seller_fee_basis_points, 500);
    assert!(v2.creators.is_none());
    assert!(v2.collection.is_none());
    assert!(v2.uses.is_none());
}

/// A fungible token's three fields make a payload with no fee, creators,
/// collection or uses.
#[test]
fn fungible_fields_become_a_bare_payload() {
    let fields = FungibleFields {
        name: s("Coin"),
        symbol: s("CN"),
        uri: s("https://example.invalid/coin.json"),
    };
    let v2: MetadataDataV2 = fields.into();
    assert_eq!(v2.name, "Coin");
    assert_eq!(v2.symbol, "CN");
    assert_eq!(v2.uri, "https://example.invalid/coin.json");
    assert_eq!(v2.seller_fee_basis_points, 0);
    assert!(v2.creators.is_none());
    assert!(v2.collection.is_none());
    assert!(v2.uses.is_none());
}

/// The batch action's name, as it appears in logs and reports.
#[test]
fn action_name() {
    assert_eq!(SetTokenStandardAll::name(), "set-token-standard-all");
}

/// The argument types hold the engine's whole configuration surface.
#[test]
fn argument_types_carry_the_configuration() {
    let one = SetTokenStandardArgs { mint_account: s("mint111") };
    assert_eq!(one.mint_account, "mint111");

    let all = SetTokenStandardAllArgs {
        keypair: None,
        mint_list: Some(s("mints.json")),
        cache_file: Some(s("cache.json")),
        rate_limit: 10,
        retries: 3,
    };
    assert_eq!(all.rate_limit, 10);
    assert_eq!(all.retries, 3);

    let create = CreateMetadataArgs {
        keypair: None,
        mint: s("mint222"),
        metadata: s("meta.json"),
        immutable: false,
    };
    assert!(!create.immutable);

    let edition = CreateMasterEditionArgs {
        keypair: None,
        mint_authority: None,
        mint: s("mint333"),
        max_supply: -1,
    };
    assert_eq!(classify_max_supply(edition.max_supply), None);
}

/// Fatal error kinds abort a run; a per-target failure does not.
#[test]
fn error_kinds() {
    assert!(EngineError::InvalidInput(s("empty")).is_fatal());
    assert!(EngineError::CacheCorrupt(s("bad json")).is_fatal());
    assert!(!EngineError::ActionFailed(s("mint"), s("boom")).is_fatal());
    assert!(Outcome::Success(s("sig")).is_success());
    assert!(!Outcome::Failure(s("no")).is_success());
}
