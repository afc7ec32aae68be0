//! The upstream service's record schema and the public record shape.
use vstd::prelude::*;

verus! {

/// The contract that holds a token.
pub struct ContractData {
    pub address: String,
}

/// Token metadata as the upstream service reports it.
pub struct TokenMetadata {
    pub token_type: String,
}

/// A token's identity within its contract.
pub struct NFTId {
    pub token_id: String,
    pub token_metadata: TokenMetadata,
}

/// One owned token, in the upstream service's schema.
pub struct NFTData {
    pub contract: ContractData,
    pub id: NFTId,
    pub balance: String,
    pub title: String,
    pub description: String,
}

/// The upstream service's answer to an ownership lookup.
pub struct AlchemyResponse {
    pub owned_nfts: Vec<NFTData>,
    pub total_count: Option<u32>,
}

/// One token in the public shape: its identifier and its title.
pub struct NFT {
    pub id: String,
    pub name: String,
}

impl View for NFT {
    type V = (Seq<char>, Seq<char>);

    /// The identifier and the name.
    open spec fn view(&self) -> (Seq<char>, Seq<char>) {
        (self.id@, self.name@)
    }
}

/// The identifier and name of each record, in order.
pub open spec fn views_of(nfts: Seq<NFT>) -> Seq<(Seq<char>, Seq<char>)> {
    nfts.map_values(|n: NFT| n@)
}

/// What the public form of the records holds: each token identifier with its
/// title, in the upstream order.
pub open spec fn public_form(records: Seq<NFTData>) -> Seq<(Seq<char>, Seq<char>)> {
    records.map_values(|d: NFTData| (d.id.token_id@, d.title@))
}

/// `out` is the public form of `records`: one entry per record, in order,
/// with the record's token identifier as `id` and its title as `name`.
pub open spec fn maps_records(records: Seq<NFTData>, out: Seq<NFT>) -> bool {
    &&& out.len() == records.len()
    &&& forall|i: int|
        0 <= i < out.len() ==> {
            &&& (#[trigger] out[i]).id@ == records[i].id.token_id@
            &&& out[i].name@ == records[i].title@
        }
}

pub proof fn lemma_maps_records_views(records: Seq<NFTData>, out: Seq<NFT>)
    requires
        maps_records(records, out),
    ensures
        views_of(out) == public_form(records),
{
    assert(views_of(out) =~= public_form(records));
}

/// The public form of one upstream record.
pub fn nft_from_record(record: &NFTData) -> (r: NFT)
    ensures
        r.id@ == record.id.token_id@,
        r.name@ == record.title@,
{
    NFT { id: record.id.token_id.clone(), name: record.title.clone() }
}

/// Maps every owned token of an upstream answer to the public shape, keeping
/// the upstream order.
pub fn list_nfts(response: &AlchemyResponse) -> (r: Vec<NFT>)
    ensures
        maps_records(response.owned_nfts@, r@),
{
    let records = &response.owned_nfts;
    let mut out: Vec<NFT> = Vec::new();
    let mut i: usize = 0;
    while i < records.len()
        invariant
            0 <= i <= records@.len(),
            maps_records(records@.take(i as int), out@),
        decreases records@.len() - i,
    {
        let nft = nft_from_record(&records[i]);
        out.push(nft);
        i = i + 1;
    }
    assert(records@.take(i as int) =~= records@);
    out
}

} // verus!
