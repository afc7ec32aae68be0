//! The HTTP reply for a lookup: the records as a JSON array, or not found.
use crate::fetch::FetchError;
use crate::model::{lemma_maps_records_views, list_nfts, public_form, views_of, AlchemyResponse, NFT};
use vstd::prelude::*;

verus! {

/// The JSON string literal that serde_json writes for a text, quotes and
/// escapes included; `None` where it reports an error.
pub uninterp spec fn json_string_of(s: Seq<char>) -> Option<Seq<char>>;

/// Relies on serde_json::to_string on a `str`: the JSON string literal for
/// the text, a function of the text alone.
#[verifier::external_body]
fn json_string(s: &str) -> (r: Option<String>)
    ensures
        match r {
            Some(t) => json_string_of(s@) == Some(t@),
            None => json_string_of(s@) is None,
        },
{
    serde_json::to_string(s).ok()
}

/// The JSON object for one record: `{"id":...,"name":...}`.
pub open spec fn nft_json(nft: (Seq<char>, Seq<char>)) -> Option<Seq<char>> {
    match (json_string_of(nft.0), json_string_of(nft.1)) {
        (Some(id), Some(name)) => Some(ID_KEY@ + id + NAME_KEY@ + name + OBJECT_END@),
        _ => None,
    }
}

/// The records' objects joined by commas, or `None` if one cannot be written.
pub open spec fn nfts_json_items(nfts: Seq<(Seq<char>, Seq<char>)>) -> Option<Seq<char>>
    decreases nfts.len(),
{
    if nfts.len() == 0 {
        Some(Seq::empty())
    } else {
        match (nfts_json_items(nfts.drop_last()), nft_json(nfts.last())) {
            (Some(init), Some(last)) => Some(
                if nfts.len() == 1 {
                    last
                } else {
                    init + SEPARATOR@ + last
                },
            ),
            _ => None,
        }
    }
}

/// The JSON array of the records, in order.
pub open spec fn nfts_json(nfts: Seq<(Seq<char>, Seq<char>)>) -> Option<Seq<char>> {
    match nfts_json_items(nfts) {
        Some(items) => Some(ARRAY_START@ + items + ARRAY_END@),
        None => None,
    }
}

pub const ID_KEY: &'static str = "{\"id\":";

pub const NAME_KEY: &'static str = ",\"name\":";

pub const OBJECT_END: &'static str = "}";

pub const SEPARATOR: &'static str = ",";

pub const ARRAY_START: &'static str = "[";

pub const ARRAY_END: &'static str = "]";

/// Writes the records as a compact JSON array of `{"id","name"}` objects.
pub fn render_nfts(nfts: &Vec<NFT>) -> (r: Option<String>)
    ensures
        match r {
            Some(t) => nfts_json(views_of(nfts@)) == Some(t@),
            None => nfts_json(views_of(nfts@)) is None,
        },
{
    let mut out = String::new();
    out.append(ARRAY_START);
    proof {
        reveal_strlit("[");
        assert(ARRAY_START@ =~= seq!['[']);
        assert(out@.drop_first() =~= Seq::<char>::empty());
        assert(views_of(nfts@).take(0) =~= Seq::<(Seq<char>, Seq<char>)>::empty());
    }
    let mut i: usize = 0;
    while i < nfts.len()
        invariant
            0 <= i <= nfts@.len(),
            nfts_json_items(views_of(nfts@).take(i as int)) == Some(out@.drop_first()),
            out@.len() >= 1,
            out@[0] == ARRAY_START@[0],
            ARRAY_START@ == seq!['['],
        decreases nfts@.len() - i,
    {
        let id = json_string(nfts[i].id.as_str());
        let name = json_string(nfts[i].name.as_str());
        let ghost before = out@;
        proof {
            let t = views_of(nfts@).take(i + 1);
            assert(t.drop_last() =~= views_of(nfts@).take(i as int));
            assert(t.last() == nfts@[i as int]@);
        }
        match (id, name) {
            (Some(id), Some(name)) => {
                if i > 0 {
                    out.append(SEPARATOR);
                }
                out.append(ID_KEY);
                out.append(id.as_str());
                out.append(NAME_KEY);
                out.append(name.as_str());
                out.append(OBJECT_END);
                proof {
                    let obj = ID_KEY@ + id@ + NAME_KEY@ + name@ + OBJECT_END@;
                    assert(nft_json(nfts@[i as int]@) == Some(obj));
                    if i > 0 {
                        assert(out@.drop_first() =~= before.drop_first() + SEPARATOR@ + obj);
                    } else {
                        assert(out@.drop_first() =~= obj);
                    }
                }
            },
            _ => {
                assert(nfts_json_items(views_of(nfts@).take(i + 1)) is None);
                proof {
                    lemma_items_none_extends(views_of(nfts@), i + 1);
                }
                return None;
            },
        }
        i = i + 1;
    }
    out.append(ARRAY_END);
    assert(views_of(nfts@).take(i as int) =~= views_of(nfts@));
    assert(out@ =~= ARRAY_START@ + nfts_json_items(views_of(nfts@))->0 + ARRAY_END@);
    Some(out)
}

proof fn lemma_items_none_extends(nfts: Seq<(Seq<char>, Seq<char>)>, n: int)
    requires
        0 <= n <= nfts.len(),
        nfts_json_items(nfts.take(n)) is None,
    ensures
        nfts_json_items(nfts) is None,
    decreases nfts.len() - n,
{
    if n < nfts.len() {
        let t = nfts.take(n + 1);
        assert(t.drop_last() =~= nfts.take(n));
        lemma_items_none_extends(nfts, n + 1);
    } else {
        assert(nfts.take(n) =~= nfts);
    }
}

/// An HTTP reply: status code and body.
pub struct Reply {
    pub status: u16,
    pub body: String,
}

/// The reply for a lookup: 200 with the JSON array of the records; 404 with
/// an empty body for any failure; 500 with an empty body where the records
/// cannot be written as JSON.
pub fn reply_for(fetched: Result<Vec<NFT>, FetchError>) -> (r: Reply)
    ensures
        match fetched {
            Ok(nfts) => match nfts_json(views_of(nfts@)) {
                Some(body) => r.status == 200 && r.body@ == body,
                None => r.status == 500 && r.body@.len() == 0,
            },
            Err(_) => r.status == 404 && r.body@.len() == 0,
        },
{
    match fetched {
        Ok(nfts) => match render_nfts(&nfts) {
            Some(body) => Reply { status: 200, body },
            None => Reply { status: 500, body: String::new() },
        },
        Err(_) => Reply { status: 404, body: String::new() },
    }
}


/// The reply for a decoded upstream answer: its records in the public form,
/// or not found where the lookup failed.
pub fn answer(decoded: Result<AlchemyResponse, FetchError>) -> (r: Reply)
    ensures
        match decoded {
            Ok(response) => match nfts_json(public_form(response.owned_nfts@)) {
                Some(body) => r.status == 200 && r.body@ == body,
                None => r.status == 500 && r.body@.len() == 0,
            },
            Err(_) => r.status == 404 && r.body@.len() == 0,
        },
{
    match decoded {
        Ok(response) => {
            let nfts = list_nfts(&response);
            proof {
                lemma_maps_records_views(response.owned_nfts@, nfts@);
            }
            reply_for(Ok(nfts))
        },
        Err(e) => reply_for(Err(e)),
    }
}

} // verus!
