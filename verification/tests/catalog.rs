use rpc_gateway::client::chainlist::{scan_captured, CatalogError, ChainlistClient};

const CATALOG: &str = r#"import { mergeDeep } from "../utils/fetch.js";

const privacyStatement = {
  ankr: "https://www.ankr.com/blog/ (not an endpoint: no quotes around it)",
};

export const extraRpcs = {
  1: {
    rpcs: [
      {
        url: "https://eth.llamarpc.com",
        tracking: "none",
      },
      "https://endpoints.omniatech.io/v1/eth/mainnet/public",
      "wss://ethereum.publicnode.com",
      "http://insecure.example.com",
      {
        url: "https://rpc.polysplit.cloud/v1/chain/1",
      },
    ],
  },
  //Optimism
  10: {
    rpcs: [
          "https://mainnet.optimism.io/",
    ],
  },
  137: {
    rpcs: [
      "https://polygon-rpc.com",
    ],
  },
  1: {
    rpcs: ["https://cloudflare-eth.com"],
  },
  seven: {
    rpcs: ["https://kept.under-the-chain-before.org"],
  },
};

const allExtraRpcs = mergeDeep(llamaNodesRpcs, extraRpcs);
"https://after.the-stop-line.io",
"#;

fn group(chain_id: &str, urls: &[&str]) -> (String, Vec<String>) {
    (chain_id.to_string(), urls.iter().map(|url| url.to_string()).collect())
}

#[test]
fn catalog_is_read_chain_by_chain() {
    let rpcs = ChainlistClient::new().fetch_rpcs(CATALOG);
    assert_eq!(
        rpcs,
        Ok(vec![
            group(
                "1",
                &[
                    "https://eth.llamarpc.com",
                    "https://endpoints.omniatech.io/v1/eth/mainnet/public",
                    "https://cloudflare-eth.com",
                    "https://kept.under-the-chain-before.org",
                ]
            ),
            group("10", &["https://mainnet.optimism.io/"]),
            group("137", &["https://polygon-rpc.com"]),
        ])
    );
}

#[test]
fn catalog_leaves_out_known_bad_endpoints() {
    let content = "export const extraRpcs = {\n  5: {\n    \"https://rpc.polysplit.cloud/v1/chain/5\",\n    \"https://good.example.org\",\n    \"https://polysplit.example.org/rpc\",\n    \"https://example.org/polysplit\",\n  },\nconst allExtraRpcs = mergeDeep(llamaNodesRpcs, extraRpcs);";
    assert_eq!(
        ChainlistClient::new().fetch_rpcs(content),
        Ok(vec![group("5", &["https://good.example.org"])])
    );
}

#[test]
fn catalog_endpoints_before_any_chain_belong_to_the_empty_id() {
    let content = "export const extraRpcs = {\n\"https://early.example.org\",\n3: {\n\"https://late.example.org\",\nconst allExtraRpcs = mergeDeep(llamaNodesRpcs, extraRpcs);";
    assert_eq!(
        ChainlistClient::new().fetch_rpcs(content),
        Ok(vec![group("", &["https://early.example.org"]), group("3", &["https://late.example.org"])])
    );
}

#[test]
fn catalog_lines_are_read_without_the_blanks_around_them() {
    let content = "export const extraRpcs = {\n \t 42: {  \r\n1 : {\n 7: { x\n\t\"https://a.example.org\",\nconst allExtraRpcs = mergeDeep(llamaNodesRpcs, extraRpcs);";
    assert_eq!(
        ChainlistClient::new().fetch_rpcs(content),
        Ok(vec![group("42", &["https://a.example.org"])])
    );
}

#[test]
fn catalog_without_endpoints_is_empty() {
    let content = "export const extraRpcs = {\nconst allExtraRpcs = mergeDeep(llamaNodesRpcs, extraRpcs);";
    assert_eq!(ChainlistClient::new().fetch_rpcs(content), Ok(Vec::new()));
}

#[test]
fn catalog_needs_its_start_and_stop_lines() {
    let client = ChainlistClient::new();
    assert_eq!(client.fetch_rpcs(""), Err(CatalogError::MissingStartLine));
    assert_eq!(client.fetch_rpcs("1: {\n\"https://a.example.org\","), Err(CatalogError::MissingStartLine));
    assert_eq!(
        client.fetch_rpcs(" export const extraRpcs = {\nconst allExtraRpcs = mergeDeep(llamaNodesRpcs, extraRpcs);"),
        Err(CatalogError::MissingStartLine)
    );
    assert_eq!(
        client.fetch_rpcs("const allExtraRpcs = mergeDeep(llamaNodesRpcs, extraRpcs);"),
        Err(CatalogError::MissingStartLine)
    );
    assert_eq!(
        client.fetch_rpcs("export const extraRpcs = {\n1: {\n\"https://a.example.org\","),
        Err(CatalogError::MissingStopLine)
    );
    assert_eq!(
        client.fetch_rpcs("export const extraRpcs = {\r\nconst allExtraRpcs = mergeDeep(llamaNodesRpcs, extraRpcs);"),
        Err(CatalogError::MissingStartLine)
    );
    assert_eq!(
        client.fetch_rpcs("const allExtraRpcs = mergeDeep(llamaNodesRpcs, extraRpcs);\nexport const extraRpcs = {"),
        Err(CatalogError::StopBeforeStart)
    );
}

#[test]
fn captured_lines_are_taken_in() {
    let mut chain_id = String::new();
    let mut entries: Vec<(String, String)> = Vec::new();
    scan_captured(&mut chain_id, &mut entries, None, Some("https://early.example.org".to_string()));
    scan_captured(&mut chain_id, &mut entries, Some("137".to_string()), None);
    assert_eq!(chain_id, "137");
    scan_captured(&mut chain_id, &mut entries, None, None);
    scan_captured(&mut chain_id, &mut entries, None, Some("https://a.example.org".to_string()));
    scan_captured(&mut chain_id, &mut entries, None, Some("https://rpc.polysplit.cloud".to_string()));
    scan_captured(&mut chain_id, &mut entries, Some("1".to_string()), Some("https://ignored.example.org".to_string()));
    scan_captured(&mut chain_id, &mut entries, None, Some("https://b.example.org".to_string()));
    assert_eq!(chain_id, "1");
    assert_eq!(
        entries,
        vec![
            ("".to_string(), "https://early.example.org".to_string()),
            ("137".to_string(), "https://a.example.org".to_string()),
            ("1".to_string(), "https://b.example.org".to_string()),
        ]
    );
}
