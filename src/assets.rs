//! Asset records of a drop: their stored form and the form handed to callers.
use vstd::prelude::*;
use std::collections::HashMap;

verus! {

/// Gas spent by the claim logic itself: 20 TGas.
pub const GAS_FOR_CLAIM_LOGIC: u64 = 20_000_000_000_000;
/// Least gas for one non-fungible token transfer: 10 TGas.
pub const MIN_GAS_FOR_NFT_TRANSFER: u64 = 10_000_000_000_000;

/// Stored data of a non-fungible token asset.
pub struct InternalNFTData {
    /// Account of the token contract.
    pub contract_id: String,
    /// Token ids available to be claimed.
    pub token_ids: Vec<String>,
}

impl InternalNFTData {
    /// A record for `contract_id` with no tokens yet.
    pub fn new(contract_id: String) -> (r: Self)
        ensures
            r.contract_id@ == contract_id@,
            r.token_ids@.len() == 0,
    {
        Self { contract_id, token_ids: Vec::new() }
    }

    /// Whether at least one token is left to transfer.
    pub fn enough_tokens(&self) -> (r: bool)
        ensures
            r == (self.token_ids@.len() > 0),
    {
        self.token_ids.len() > 0
    }

    /// The gas that one claim requires.
    pub fn get_required_gas_for_claim(&self) -> (r: u64)
        ensures
            r == GAS_FOR_CLAIM_LOGIC + MIN_GAS_FOR_NFT_TRANSFER,
    {
        GAS_FOR_CLAIM_LOGIC + MIN_GAS_FOR_NFT_TRANSFER
    }
}

/// Stored data of a fungible token asset.
pub struct InternalFTData {
    pub contract_id: String,
    /// Cost, in yocto, of registering a user on the token contract.
    pub registration_cost: u128,
}

/// A stored asset.
pub enum InternalAsset {
    Ft(InternalFTData),
}

/// How an asset is used at one use of a key.
pub struct AssetMetadata {
    /// Key of the asset in the drop's asset table.
    pub asset_id: u64,
    /// Tokens transferred per use; always present for fungible tokens.
    pub tokens_per_use: Option<u128>,
}

/// Fungible token data as callers see it.
pub struct ExtFTData {
    /// The contract that the tokens come from.
    pub contract_id: String,
    /// Cost, in yocto, of registering a user on the token contract.
    pub registration_cost: u128,
    /// Tokens, in their smallest unit, transferred per claim.
    pub amount: u128,
}

/// An asset as callers see it.
pub enum ExtAsset {
    FTAsset(ExtFTData),
}

/// `e` is the caller-facing form of `ia` used as `md` says.
pub open spec fn converted(ia: InternalAsset, md: AssetMetadata, e: ExtAsset) -> bool {
    match (ia, e) {
        (InternalAsset::Ft(d), ExtAsset::FTAsset(x)) => x.contract_id@ == d.contract_id@
            && x.registration_cost == d.registration_cost
            && Some(x.amount) == md.tokens_per_use,
    }
}

impl ExtAsset {
    /// The caller-facing form of a stored asset and its metadata.
    pub fn from_internal_asset(internal_asset: &InternalAsset, asset_metadata: &AssetMetadata) -> (r: Self)
        requires
            asset_metadata.tokens_per_use is Some,
        ensures
            converted(*internal_asset, *asset_metadata, r),
    {
        match internal_asset {
            InternalAsset::Ft(ft_data) => ExtAsset::FTAsset(ExtFTData {
                contract_id: ft_data.contract_id.clone(),
                registration_cost: ft_data.registration_cost,
                amount: asset_metadata.tokens_per_use.unwrap(),
            }),
        }
    }
}

/// A drop as stored: for each use of a key, the assets it hands out.
pub struct InternalDrop {
    pub uses_per_key: u32,
    pub assets_metadata_by_use: HashMap<u32, Vec<AssetMetadata>>,
    pub asset_by_id: HashMap<u64, InternalAsset>,
}

impl InternalDrop {
    /// Every use from 1 to `uses_per_key` has its metadata, and every asset
    /// that the metadata names is stored with its tokens per use.
    pub open spec fn complete(&self) -> bool {
        forall|u: u32| 1 <= u <= self.uses_per_key ==> {
            &&& #[trigger] self.assets_metadata_by_use@.contains_key(u)
            &&& forall|i: int| 0 <= i < self.assets_metadata_by_use@[u]@.len() ==> {
                &&& self.asset_by_id@.contains_key(#[trigger] self.assets_metadata_by_use@[u]@[i].asset_id)
                &&& self.assets_metadata_by_use@[u]@[i].tokens_per_use is Some
            }
        }
    }
}

/// A drop as callers see it.
pub struct ExtDrop {
    pub assets_by_use: HashMap<u32, Vec<ExtAsset>>,
}

impl ExtDrop {
    /// The caller-facing form of a stored drop: for each use, its assets in order.
    pub fn from_internal_drop(internal_drop: &InternalDrop) -> (r: Self)
        requires
            internal_drop.complete(),
        ensures
            forall|u: u32| #[trigger] r.assets_by_use@.contains_key(u) <==> 1 <= u <= internal_drop.uses_per_key,
            forall|u: u32, i: int| 1 <= u <= internal_drop.uses_per_key && 0 <= i < r.assets_by_use@[u]@.len()
                ==> converted(
                    internal_drop.asset_by_id@[internal_drop.assets_metadata_by_use@[u]@[i].asset_id],
                    internal_drop.assets_metadata_by_use@[u]@[i],
                    #[trigger] r.assets_by_use@[u]@[i],
                ),
            forall|u: u32| 1 <= u <= internal_drop.uses_per_key
                ==> (#[trigger] r.assets_by_use@[u])@.len() == internal_drop.assets_metadata_by_use@[u]@.len(),
    {
        broadcast use vstd::std_specs::hash::group_hash_axioms;
        let mut assets_by_use: HashMap<u32, Vec<ExtAsset>> = HashMap::new();
        let uses: u32 = internal_drop.uses_per_key;
        let mut n: u64 = 1;
        while n <= uses as u64
            invariant
                1 <= n <= uses as u64 + 1,
                uses == internal_drop.uses_per_key,
                internal_drop.complete(),
                forall|u: u32| #[trigger] assets_by_use@.contains_key(u) <==> 1 <= u < n,
                forall|u: u32, i: int| 1 <= u < n && 0 <= i < assets_by_use@[u]@.len()
                    ==> converted(
                        internal_drop.asset_by_id@[internal_drop.assets_metadata_by_use@[u]@[i].asset_id],
                        internal_drop.assets_metadata_by_use@[u]@[i],
                        #[trigger] assets_by_use@[u]@[i],
                    ),
                forall|u: u32| 1 <= u < n
                    ==> (#[trigger] assets_by_use@[u])@.len() == internal_drop.assets_metadata_by_use@[u]@.len(),
            decreases uses as u64 + 1 - n,
        {
            let use_number: u32 = n as u32;
            assert(internal_drop.assets_metadata_by_use@.contains_key(use_number));
            let assets_metadata = internal_drop.assets_metadata_by_use.get(&use_number).unwrap();
            let mut assets: Vec<ExtAsset> = Vec::new();
            let mut i: usize = 0;
            while i < assets_metadata.len()
                invariant
                    1 <= use_number <= uses,
                    uses == internal_drop.uses_per_key,
                    internal_drop.complete(),
                    *assets_metadata == internal_drop.assets_metadata_by_use@[use_number],
                    i <= assets_metadata@.len(),
                    assets@.len() == i,
                    forall|k: int| 0 <= k < i ==> converted(
                        internal_drop.asset_by_id@[assets_metadata@[k].asset_id],
                        assets_metadata@[k],
                        #[trigger] assets@[k],
                    ),
                decreases assets_metadata@.len() - i,
            {
                let metadata = &assets_metadata[i];
                assert(internal_drop.assets_metadata_by_use@.contains_key(use_number));
                assert(*metadata == internal_drop.assets_metadata_by_use@[use_number]@[i as int]);
                assert(internal_drop.asset_by_id@.contains_key(metadata.asset_id));
                let asset = internal_drop.asset_by_id.get(&metadata.asset_id).unwrap();
                assets.push(ExtAsset::from_internal_asset(asset, metadata));
                i = i + 1;
            }
            assets_by_use.insert(use_number, assets);
            n = n + 1;
        }
        ExtDrop { assets_by_use }
    }
}

/// What is known of a public key.
pub struct ExtKeyInfo {
    /// Gas to attach when the key is used to claim.
    pub required_gas: String,
    /// yoctoNEAR sent to the claiming account.
    pub yoctonear: String,
    /// Fungible tokens sent to the claiming account, if any.
    pub ft_list: Option<Vec<ExtFTData>>,
}

} // verus!
