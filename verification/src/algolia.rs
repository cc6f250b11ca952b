use vstd::prelude::*;

verus! {

/// The three values that select an Algolia search index.
#[derive(Debug)]
pub struct AlgoliaSearchConfig {
    pub application_id: String,
    pub api_key: String,
    pub index_name: String,
}

/// Why a search client could not be made, or an address not built.
#[derive(Debug)]
pub enum SearchSetupError {
    /// The application id is empty.
    EmptyApplicationId,
    /// The search-only key is empty.
    EmptyApiKey,
    /// The index name is empty.
    EmptyIndexName,
    /// An address did not parse.
    InvalidUrl(url::ParseError),
}

/// A search client: the configuration and the hosts that serve reads, tried in order.
#[derive(Debug)]
pub struct AlgoliaSearch {
    pub config: AlgoliaSearchConfig,
    pub read_hosts: Vec<String>,
}

/// A name for what parsing an absolute address with `url::Url::parse` gives:
/// its serialization, or `None` when it does not parse. The URL standard's
/// parsing rules take pages, so nothing more is stated of it.
pub uninterp spec fn parsed_url(input: Seq<char>) -> Option<Seq<char>>;

/// A name for what `url::Url::join` gives for the address `base` (a
/// serialized address) and the relative reference `relative`: the serialized
/// result, or `None` when either does not parse.
pub uninterp spec fn joined_url(base: Seq<char>, relative: Seq<char>) -> Option<Seq<char>>;

/// Calls `url::Url::parse` and serializes the address. Trusted: the result is
/// `parsed_url` of the input, an error exactly where that is `None`.
#[verifier::external_body]
fn parse_url(input: &str) -> (res: Result<String, url::ParseError>)
    ensures
        match res {
            Ok(u) => parsed_url(input@) == Some(u@),
            Err(_) => parsed_url(input@) is None,
        },
{
    url::Url::parse(input).map(String::from)
}

/// Calls `url::Url::join` on the address `base` (converted to a `Url` with
/// `url::Url::parse`, whose error it passes on) and serializes the result.
/// Trusted: the result is `joined_url` of the arguments, an error exactly
/// where that is `None`.
#[verifier::external_body]
fn join_url(base: &str, relative: &str) -> (res: Result<String, url::ParseError>)
    ensures
        match res {
            Ok(u) => joined_url(base@, relative@) == Some(u@),
            Err(_) => joined_url(base@, relative@) is None,
        },
{
    match url::Url::parse(base) {
        Ok(parsed) => parsed.join(relative).map(String::from),
        Err(e) => Err(e),
    }
}

/// Which value of a configuration is missing first, checked in the order
/// application id, search key, index name; `None` when none is empty.
pub open spec fn missing_value(config: AlgoliaSearchConfig) -> Option<SearchSetupError> {
    if config.application_id@.len() == 0 {
        Some(SearchSetupError::EmptyApplicationId)
    } else if config.api_key@.len() == 0 {
        Some(SearchSetupError::EmptyApiKey)
    } else if config.index_name@.len() == 0 {
        Some(SearchSetupError::EmptyIndexName)
    } else {
        None
    }
}

/// The address of the primary read host of the application `app`.
pub open spec fn dsn_host(app: Seq<char>) -> Seq<char> {
    "https://"@ + app + "-dsn.algolia.net"@
}

/// The address of the numbered fallback read host `n` of the application `app`.
pub open spec fn numbered_host(app: Seq<char>, n: Seq<char>) -> Seq<char> {
    "https://"@ + app + "-"@ + n + ".algolianet.com"@
}

/// The read host addresses of the application `app`, in the order they are tried.
pub open spec fn read_host_addresses(app: Seq<char>) -> Seq<Seq<char>> {
    seq![dsn_host(app), numbered_host(app, "1"@), numbered_host(app, "2"@), numbered_host(app, "3"@)]
}

/// The search route of the index `index` below a base address.
pub open spec fn query_route(index: Seq<char>) -> Seq<char> {
    "1/indexes/"@ + index + "/query"@
}

impl SearchSetupError {
    /// The message shown for the error.
    pub fn message(&self) -> (res: String)
        ensures
            *self is EmptyApplicationId ==> res@ == "ALGOLIA_APPLICATION_ID must not be empty"@,
            *self is EmptyApiKey ==> res@ == "ALGOLIA_SEARCH_ONLY_API_KEY must not be empty"@,
            *self is EmptyIndexName ==> res@ == "ALGOLIA_SEARCH_INDEX must not be empty"@,
            *self is InvalidUrl ==> res@ == "invalid Algolia URL"@,
    {
        match self {
            SearchSetupError::EmptyApplicationId => "ALGOLIA_APPLICATION_ID must not be empty".to_owned(),
            SearchSetupError::EmptyApiKey => "ALGOLIA_SEARCH_ONLY_API_KEY must not be empty".to_owned(),
            SearchSetupError::EmptyIndexName => "ALGOLIA_SEARCH_INDEX must not be empty".to_owned(),
            SearchSetupError::InvalidUrl(_) => "invalid Algolia URL".to_owned(),
        }
    }
}

/// Checks that no configuration value is empty.
pub fn validate_config(config: &AlgoliaSearchConfig) -> (res: Result<(), SearchSetupError>)
    ensures
        match missing_value(*config) {
            None => res is Ok,
            Some(e) => res matches Err(r) && r == e,
        },
{
    if config.application_id.as_str().is_empty() {
        Err(SearchSetupError::EmptyApplicationId)
    } else if config.api_key.as_str().is_empty() {
        Err(SearchSetupError::EmptyApiKey)
    } else if config.index_name.as_str().is_empty() {
        Err(SearchSetupError::EmptyIndexName)
    } else {
        Ok(())
    }
}

/// `hosts` are the parsed `addresses`, when all of them parse.
pub open spec fn parsed_all(addresses: Seq<Seq<char>>, hosts: Seq<Seq<char>>) -> bool {
    &&& hosts.len() == addresses.len()
    &&& forall|i: int| 0 <= i < hosts.len() ==> parsed_url(addresses[i]) == Some(#[trigger] hosts[i])
}

/// Whether every address parses.
pub open spec fn all_parse(addresses: Seq<Seq<char>>) -> bool {
    forall|i: int| 0 <= i < addresses.len() ==> (#[trigger] parsed_url(addresses[i])) is Some
}

/// The texts of the hosts.
pub open spec fn hosts_view(hosts: Seq<String>) -> Seq<Seq<char>> {
    hosts.map_values(|h: String| h@)
}

/// The address of the numbered read host `n` of the application `app`, as text.
fn numbered_host_text(app: &str, n: &str) -> (res: String)
    ensures
        res@ == numbered_host(app@, n@),
{
    let mut host = "https://".to_owned();
    host.append(app);
    host.append("-");
    host.append(n);
    host.append(".algolianet.com");
    host
}

/// The read host addresses of the application `app`, as text.
fn read_host_texts(app: &str) -> (res: Vec<String>)
    ensures
        hosts_view(res@) == read_host_addresses(app@),
{
    let mut dsn = "https://".to_owned();
    dsn.append(app);
    dsn.append("-dsn.algolia.net");
    let mut res: Vec<String> = Vec::new();
    res.push(dsn);
    res.push(numbered_host_text(app, "1"));
    res.push(numbered_host_text(app, "2"));
    res.push(numbered_host_text(app, "3"));
    proof {
        assert(hosts_view(res@) =~= read_host_addresses(app@));
    }
    res
}

/// Parses each address in turn; `None` at the first that does not parse.
fn parse_all(addresses: &Vec<String>) -> (res: Result<Vec<String>, url::ParseError>)
    ensures
        match res {
            Ok(hosts) => parsed_all(hosts_view(addresses@), hosts_view(hosts@)),
            Err(_) => !all_parse(hosts_view(addresses@)),
        },
{
    let mut hosts: Vec<String> = Vec::new();
    let mut i: usize = 0;
    while i < addresses.len()
        invariant
            i <= addresses@.len(),
            parsed_all(hosts_view(addresses@).take(i as int), hosts_view(hosts@)),
        decreases addresses.len() - i,
    {
        let ghost old_h = hosts_view(hosts@);
        match parse_url(addresses[i].as_str()) {
            Ok(host) => {
                hosts.push(host);
                proof {
                    let a = hosts_view(addresses@).take(i + 1);
                    let h = hosts_view(hosts@);
                    assert(h[i as int] == host@);
                    assert(a[i as int] == addresses@[i as int]@);
                    assert forall|j: int| 0 <= j < h.len() implies parsed_url(a[j]) == Some(#[trigger] h[j]) by {
                        if j < i {
                            assert(hosts_view(addresses@).take(i as int)[j] == a[j]);
                            assert(h[j] == old_h[j]);
                            assert(parsed_url(hosts_view(addresses@).take(i as int)[j]) == Some(old_h[j]));
                        }
                    }
                }
            },
            Err(e) => {
                proof {
                    assert(hosts_view(addresses@)[i as int] == addresses@[i as int]@);
                }
                return Err(e);
            },
        }
        i = i + 1;
    }
    proof {
        assert(hosts_view(addresses@).take(addresses@.len() as int) =~= hosts_view(addresses@));
    }
    Ok(hosts)
}

impl AlgoliaSearch {
    /// Makes a client that reads from the application's hosts: its `-dsn`
    /// host first, then its numbered hosts 1 to 3. Fails on the first empty
    /// configuration value (application id, then search key, then index
    /// name), or when a host address does not parse.
    pub fn new(config: AlgoliaSearchConfig) -> (res: Result<AlgoliaSearch, SearchSetupError>)
        ensures
            match missing_value(config) {
                Some(e) => res matches Err(r) && r == e,
                None => match res {
                    Ok(client) => client.config == config
                        && parsed_all(read_host_addresses(config.application_id@), hosts_view(client.read_hosts@)),
                    Err(e) => e is InvalidUrl && !all_parse(read_host_addresses(config.application_id@)),
                },
            },
    {
        match validate_config(&config) {
            Ok(()) => {},
            Err(e) => return Err(e),
        }
        let addresses = read_host_texts(config.application_id.as_str());
        match parse_all(&addresses) {
            Ok(read_hosts) => Ok(AlgoliaSearch { config, read_hosts }),
            Err(e) => Err(SearchSetupError::InvalidUrl(e)),
        }
    }

    /// Makes a client that reads from the single host `base_url`. Fails as
    /// `new` does on an empty configuration value, or when `base_url` does not
    /// parse.
    pub fn with_base_url(config: AlgoliaSearchConfig, base_url: &str) -> (res: Result<AlgoliaSearch, SearchSetupError>)
        ensures
            match missing_value(config) {
                Some(e) => res matches Err(r) && r == e,
                None => match res {
                    Ok(client) => client.config == config && parsed_url(base_url@) is Some
                        && hosts_view(client.read_hosts@) == seq![parsed_url(base_url@)->0],
                    Err(e) => e is InvalidUrl && parsed_url(base_url@) is None,
                },
            },
    {
        match validate_config(&config) {
            Ok(()) => {},
            Err(e) => return Err(e),
        }
        match parse_url(base_url) {
            Ok(host) => {
                let mut read_hosts: Vec<String> = Vec::new();
                read_hosts.push(host);
                proof {
                    assert(hosts_view(read_hosts@) =~= seq![host@]);
                }
                Ok(AlgoliaSearch { config, read_hosts })
            },
            Err(e) => Err(SearchSetupError::InvalidUrl(e)),
        }
    }

    /// The search address of the index below `base_url`: the route
    /// `1/indexes/<index>/query` resolved against it.
    pub fn endpoint(&self, base_url: &str) -> (res: Result<String, SearchSetupError>)
        ensures
            match res {
                Ok(u) => joined_url(base_url@, query_route(self.config.index_name@)) == Some(u@),
                Err(e) => e is InvalidUrl && joined_url(base_url@, query_route(self.config.index_name@)) is None,
            },
    {
        let mut route = "1/indexes/".to_owned();
        route.append(self.config.index_name.as_str());
        route.append("/query");
        match join_url(base_url, route.as_str()) {
            Ok(u) => Ok(u),
            Err(e) => Err(SearchSetupError::InvalidUrl(e)),
        }
    }
}

} // verus!
