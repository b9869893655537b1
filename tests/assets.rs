use msg_interpreter::assets::{
    AssetMetadata, ExtAsset, ExtDrop, InternalAsset, InternalDrop, InternalFTData, InternalNFTData,
    GAS_FOR_CLAIM_LOGIC, MIN_GAS_FOR_NFT_TRANSFER,
};
use std::collections::HashMap;

#[test]
fn nft_data_starts_empty() {
    let mut d = InternalNFTData::new("nft.near".to_string());
    assert_eq!(d.contract_id, "nft.near");
    assert!(!d.enough_tokens());
    d.token_ids.push("1".to_string());
    assert!(d.enough_tokens());
    assert_eq!(d.get_required_gas_for_claim(), GAS_FOR_CLAIM_LOGIC + MIN_GAS_FOR_NFT_TRANSFER);
    assert_eq!(d.get_required_gas_for_claim(), 30_000_000_000_000);
}

#[test]
fn ft_asset_takes_tokens_per_use() {
    let internal = InternalAsset::Ft(InternalFTData { contract_id: "ft.near".to_string(), registration_cost: 125 });
    let meta = AssetMetadata { asset_id: 3, tokens_per_use: Some(9) };
    let ExtAsset::FTAsset(e) = ExtAsset::from_internal_asset(&internal, &meta);
    assert_eq!(e.contract_id, "ft.near");
    assert_eq!(e.registration_cost, 125);
    assert_eq!(e.amount, 9);
}

#[test]
fn drop_lists_assets_per_use() {
    let mut by_use = HashMap::new();
    by_use.insert(1u32, vec![AssetMetadata { asset_id: 7, tokens_per_use: Some(5) }]);
    by_use.insert(
        2u32,
        vec![
            AssetMetadata { asset_id: 7, tokens_per_use: Some(6) },
            AssetMetadata { asset_id: 8, tokens_per_use: Some(1) },
        ],
    );
    let mut assets = HashMap::new();
    assets.insert(7u64, InternalAsset::Ft(InternalFTData { contract_id: "a.near".to_string(), registration_cost: 2 }));
    assets.insert(8u64, InternalAsset::Ft(InternalFTData { contract_id: "b.near".to_string(), registration_cost: 3 }));
    let drop = InternalDrop { uses_per_key: 2, assets_metadata_by_use: by_use, asset_by_id: assets };
    let ext = ExtDrop::from_internal_drop(&drop);
    assert_eq!(ext.assets_by_use.len(), 2);
    let first = &ext.assets_by_use[&1];
    assert_eq!(first.len(), 1);
    let ExtAsset::FTAsset(a) = &first[0];
    assert_eq!((a.contract_id.as_str(), a.registration_cost, a.amount), ("a.near", 2, 5));
    let second = &ext.assets_by_use[&2];
    assert_eq!(second.len(), 2);
    let ExtAsset::FTAsset(b) = &second[1];
    assert_eq!((b.contract_id.as_str(), b.registration_cost, b.amount), ("b.near", 3, 1));
}
