use nft_api::encode::{decode_segment, push_encoded, upstream_url};
use nft_api::fetch::{accept_upstream, api_key_from, FetchError, Upstream};
use nft_api::model::{list_nfts, AlchemyResponse, ContractData, NFTData, NFTId, TokenMetadata};
use nft_api::reply::{answer, render_nfts, reply_for};

fn record(token_id: &str, title: &str) -> NFTData {
    NFTData {
        contract: ContractData { address: "0x1".to_string() },
        id: NFTId {
            token_id: token_id.to_string(),
            token_metadata: TokenMetadata { token_type: "ERC721".to_string() },
        },
        balance: "1".to_string(),
        title: title.to_string(),
        description: "d".to_string(),
    }
}

fn response(records: Vec<NFTData>) -> AlchemyResponse {
    AlchemyResponse { owned_nfts: records, total_count: None }
}

fn encoded(s: &str) -> String {
    let mut out = String::new();
    push_encoded(&mut out, s);
    out
}

#[test]
fn url_for_plain_owner() {
    assert_eq!(
        upstream_url("KEY", "0xABC123"),
        "https://eth-mainnet.g.alchemy.com/v2/KEY/getNFTs?owner=0xABC123"
    );
}

#[test]
fn url_escapes_reserved_characters() {
    assert_eq!(
        upstream_url("k/y", "a b?c&d#e"),
        "https://eth-mainnet.g.alchemy.com/v2/k%2Fy/getNFTs?owner=a%20b%3Fc%26d%23e"
    );
}

#[test]
fn url_escapes_non_ascii_as_utf8() {
    assert_eq!(encoded("é~-._"), "%C3%A9~-._");
}

#[test]
fn segment_decodes_escapes() {
    assert_eq!(decode_segment("a%20b%3Fc"), Some("a b?c".to_string()));
    assert_eq!(decode_segment("%3f%2F"), Some("?/".to_string()));
    assert_eq!(decode_segment("0xABC"), Some("0xABC".to_string()));
}

#[test]
fn segment_keeps_stray_percent() {
    assert_eq!(decode_segment("100%"), Some("100%".to_string()));
    assert_eq!(decode_segment("%zz%4"), Some("%zz%4".to_string()));
}

#[test]
fn segment_refuses_invalid_utf8() {
    assert_eq!(decode_segment("%FF"), None);
}

#[test]
fn segment_round_trip_of_encoding() {
    for owner in ["0x a?b", "é%&#/", "", "plain"] {
        assert_eq!(decode_segment(&encoded(owner)), Some(owner.to_string()));
    }
}

#[test]
fn distinct_owners_get_distinct_urls() {
    assert_ne!(upstream_url("k", "a b"), upstream_url("k", "a%20b"));
    assert_ne!(upstream_url("k", "0x1"), upstream_url("k", "0x2"));
}

#[test]
fn records_map_in_order() {
    let out = list_nfts(&response(vec![record("7", "Cool Cat"), record("8", "Dog"), record("1", "")]));
    assert_eq!(out.len(), 3);
    assert_eq!((out[0].id.as_str(), out[0].name.as_str()), ("7", "Cool Cat"));
    assert_eq!((out[1].id.as_str(), out[1].name.as_str()), ("8", "Dog"));
    assert_eq!((out[2].id.as_str(), out[2].name.as_str()), ("1", ""));
}

#[test]
fn empty_records_give_empty_array() {
    assert!(list_nfts(&response(vec![])).is_empty());
    let reply = answer(Ok(response(vec![])));
    assert_eq!(reply.status, 200);
    assert_eq!(reply.body, "[]");
}

#[test]
fn malformed_body_is_not_found() {
    let reply = answer(Err(FetchError::Malformed));
    assert_eq!(reply.status, 404);
    assert_eq!(reply.body, "");
}

#[test]
fn network_failure_is_not_found() {
    let fetched = accept_upstream(Upstream::Unreachable);
    assert_eq!(fetched, Err(FetchError::Network));
    let reply = answer(fetched.map(|_| response(vec![])));
    assert_eq!(reply.status, 404);
    assert_eq!(reply.body, "");
}

#[test]
fn error_status_is_not_found() {
    let fetched = accept_upstream(Upstream::Answered { status: 500, body: "{}".to_string() });
    assert_eq!(fetched, Err(FetchError::Status(500)));
    assert_eq!(answer(Err(FetchError::Status(500))).status, 404);
    assert_eq!(answer(Err(FetchError::ConfigMissing)).status, 404);
}

#[test]
fn success_status_passes_body() {
    let body = "{\"ownedNfts\":[]}".to_string();
    assert_eq!(accept_upstream(Upstream::Answered { status: 200, body: body.clone() }), Ok(body.clone()));
    assert_eq!(accept_upstream(Upstream::Answered { status: 299, body: body.clone() }), Ok(body));
    assert_eq!(
        accept_upstream(Upstream::Answered { status: 199, body: String::new() }),
        Err(FetchError::Status(199))
    );
    assert_eq!(
        accept_upstream(Upstream::Answered { status: 300, body: String::new() }),
        Err(FetchError::Status(300))
    );
}

#[test]
fn missing_key_is_config_error() {
    assert_eq!(api_key_from(None), Err(FetchError::ConfigMissing));
    assert_eq!(api_key_from(Some("abc".to_string())), Ok("abc".to_string()));
}

#[test]
fn example_owner_reply() {
    let url = upstream_url("KEY", "0xABC...123");
    assert_eq!(url, "https://eth-mainnet.g.alchemy.com/v2/KEY/getNFTs?owner=0xABC...123");
    let reply = answer(Ok(response(vec![record("7", "Cool Cat")])));
    assert_eq!(reply.status, 200);
    assert_eq!(reply.body, "[{\"id\":\"7\",\"name\":\"Cool Cat\"}]");
}

#[test]
fn several_records_joined_by_commas() {
    let reply = answer(Ok(response(vec![record("1", "A"), record("2", "B")])));
    assert_eq!(reply.body, "[{\"id\":\"1\",\"name\":\"A\"},{\"id\":\"2\",\"name\":\"B\"}]");
}

#[test]
fn names_are_json_escaped() {
    let nfts = list_nfts(&response(vec![record("7", "Cool \"Cat\"\n\\")]));
    assert_eq!(
        render_nfts(&nfts),
        Some("[{\"id\":\"7\",\"name\":\"Cool \\\"Cat\\\"\\n\\\\\"}]".to_string())
    );
}

#[test]
fn each_owner_gets_its_own_reply() {
    let first = answer(Ok(response(vec![record("1", "One")])));
    let second = answer(Ok(response(vec![record("2", "Two"), record("3", "Three")])));
    assert_eq!(first.body, "[{\"id\":\"1\",\"name\":\"One\"}]");
    assert_eq!(
        second.body,
        "[{\"id\":\"2\",\"name\":\"Two\"},{\"id\":\"3\",\"name\":\"Three\"}]"
    );
}

#[test]
fn reply_for_records() {
    let nfts = list_nfts(&response(vec![record("9", "Nine")]));
    let reply = reply_for(Ok(nfts));
    assert_eq!(reply.status, 200);
    assert_eq!(reply.body, "[{\"id\":\"9\",\"name\":\"Nine\"}]");
}
