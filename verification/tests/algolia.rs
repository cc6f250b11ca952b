use alfred_vue_docs::algolia::{AlgoliaSearch, AlgoliaSearchConfig, SearchSetupError};

fn config() -> AlgoliaSearchConfig {
    AlgoliaSearchConfig {
        application_id: "app".to_owned(),
        api_key: "key".to_owned(),
        index_name: "vue".to_owned(),
    }
}

#[test]
fn endpoint_uses_single_index_search_route() -> Result<(), SearchSetupError> {
    let base_url = "http://127.0.0.1:8080/api/";
    let client = AlgoliaSearch::with_base_url(config(), base_url)?;

    assert_eq!(
        client.endpoint(base_url)?.as_str(),
        "http://127.0.0.1:8080/api/1/indexes/vue/query"
    );
    Ok(())
}

#[test]
fn client_uses_dsn_and_numbered_read_hosts_in_order() -> Result<(), SearchSetupError> {
    let client = AlgoliaSearch::new(config())?;

    assert_eq!(
        client
            .read_hosts
            .iter()
            .map(String::as_str)
            .collect::<Vec<_>>(),
        vec![
            "https://app-dsn.algolia.net/",
            "https://app-1.algolianet.com/",
            "https://app-2.algolianet.com/",
            "https://app-3.algolianet.com/",
        ]
    );
    Ok(())
}

#[test]
fn empty_configuration_values_are_rejected_before_client_creation() {
    for (field, expected) in [
        ("application_id", "ALGOLIA_APPLICATION_ID must not be empty"),
        ("api_key", "ALGOLIA_SEARCH_ONLY_API_KEY must not be empty"),
        ("index_name", "ALGOLIA_SEARCH_INDEX must not be empty"),
    ] {
        let mut invalid = config();
        match field {
            "application_id" => invalid.application_id.clear(),
            "api_key" => invalid.api_key.clear(),
            "index_name" => invalid.index_name.clear(),
            _ => unreachable!("test field is fixed"),
        }

        let error = AlgoliaSearch::new(invalid).expect_err("empty values must fail");
        assert_eq!(error.message(), expected);
    }
}

#[test]
fn base_url_client_validates_configuration_first() {
    let mut invalid = config();
    invalid.index_name.clear();
    let error = AlgoliaSearch::with_base_url(invalid, "not a url").expect_err("empty index must fail");
    assert_eq!(error.message(), "ALGOLIA_SEARCH_INDEX must not be empty");
}

#[test]
fn unparsable_base_url_is_rejected() {
    let error = AlgoliaSearch::with_base_url(config(), "not a url").expect_err("bad address must fail");
    assert!(matches!(error, SearchSetupError::InvalidUrl(_)));
    assert_eq!(error.message(), "invalid Algolia URL");
}

#[test]
fn unusable_application_id_makes_unparsable_hosts() {
    let mut odd = config();
    odd.application_id = "a b".to_owned();
    let error = AlgoliaSearch::new(odd).expect_err("a space in a host must fail");
    assert!(matches!(error, SearchSetupError::InvalidUrl(_)));
}

#[test]
fn endpoint_resolves_against_the_given_base() -> Result<(), SearchSetupError> {
    let client = AlgoliaSearch::new(config())?;
    assert_eq!(
        client.endpoint(&client.read_hosts[1])?,
        "https://app-1.algolianet.com/1/indexes/vue/query"
    );
    assert!(matches!(client.endpoint("relative/path"), Err(SearchSetupError::InvalidUrl(_))));
    Ok(())
}
