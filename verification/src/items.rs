use vstd::prelude::*;

use crate::breadcrumb::{breadcrumb, display_breadcrumb};
use crate::grouping::{
    law_grouping_is_permutation,
    group_results, groups_results, groups_view, grouped, subgroups_results, GroupView, SubgroupView,
};
use crate::models::SearchResult;
use crate::text::{decode_html_text, decoded_html};

verus! {

/// The icon of a result item.
pub const RESULT_ICON: &'static str = "icon.png";

/// The icon of the web search fallback.
pub const FALLBACK_ICON: &'static str = "google.png";

/// The title of the placeholder shown before a query is typed.
pub const PLACEHOLDER_TITLE: &'static str = "Search the Vue.js docs...";

/// The title of the web search fallback.
pub const FALLBACK_TITLE: &'static str = "No matching answers found";

/// The subtitle of the web search fallback.
pub const FALLBACK_SUBTITLE: &'static str = "Shall I try and search Google?";

/// The address the web search fallback searches at.
pub const FALLBACK_SEARCH_URL: &'static str = "https://www.google.com/search";

/// The query parameter of the web search.
pub const FALLBACK_QUERY_KEY: &'static str = "q";

/// What the web search query starts with.
pub const FALLBACK_QUERY_PREFIX: &'static str = "Vue.js ";

/// The icon of a list item.
#[derive(Debug)]
pub struct ItemIcon {
    pub path: String,
}

/// The text a list item offers to copy, and to show in large type.
#[derive(Debug)]
pub struct ItemText {
    pub copy: String,
    pub large_type: Option<String>,
}

/// One entry of the list shown to the user.
#[derive(Debug)]
pub struct AlfredItem {
    pub title: String,
    pub subtitle: Option<String>,
    pub arg: Option<String>,
    pub uid: Option<String>,
    pub icon: Option<ItemIcon>,
    pub text: Option<ItemText>,
    pub quick_look_url: Option<String>,
    pub valid: bool,
}

/// The text of an optional string, borrowed.
fn opt_str(value: &Option<String>) -> (res: Option<&str>)
    ensures
        match res {
            Some(v) => opt_view(*value) == Some(v@),
            None => value.is_none(),
        },
{
    match value {
        Some(v) => Some(v.as_str()),
        None => None,
    }
}

impl ItemIcon {
    /// The icon's path.
    pub fn path(&self) -> (res: &str)
        ensures
            res@ == self.path@,
    {
        self.path.as_str()
    }
}

impl ItemText {
    /// The text to copy.
    pub fn copy(&self) -> (res: &str)
        ensures
            res@ == self.copy@,
    {
        self.copy.as_str()
    }

    /// The text to show in large type, if any.
    pub fn large_type(&self) -> (res: Option<&str>)
        ensures
            match res {
                Some(v) => opt_view(self.large_type) == Some(v@),
                None => self.large_type.is_none(),
            },
    {
        opt_str(&self.large_type)
    }
}

impl AlfredItem {
    /// The title.
    pub fn title(&self) -> (res: &str)
        ensures
            res@ == self.title@,
    {
        self.title.as_str()
    }

    /// The subtitle, if any.
    pub fn subtitle(&self) -> (res: Option<&str>)
        ensures
            match res {
                Some(v) => opt_view(self.subtitle) == Some(v@),
                None => self.subtitle.is_none(),
            },
    {
        opt_str(&self.subtitle)
    }

    /// The argument handed on when the entry is chosen, if any.
    pub fn arg(&self) -> (res: Option<&str>)
        ensures
            match res {
                Some(v) => opt_view(self.arg) == Some(v@),
                None => self.arg.is_none(),
            },
    {
        opt_str(&self.arg)
    }

    /// The unique id, if any.
    pub fn uid(&self) -> (res: Option<&str>)
        ensures
            match res {
                Some(v) => opt_view(self.uid) == Some(v@),
                None => self.uid.is_none(),
            },
    {
        opt_str(&self.uid)
    }

    /// The quick look address, if any.
    pub fn quick_look_url(&self) -> (res: Option<&str>)
        ensures
            match res {
                Some(v) => opt_view(self.quick_look_url) == Some(v@),
                None => self.quick_look_url.is_none(),
            },
    {
        opt_str(&self.quick_look_url)
    }

    /// The icon, if any.
    pub fn icon(&self) -> (res: Option<&ItemIcon>)
        ensures
            match res {
                Some(i) => self.icon == Some(*i),
                None => self.icon.is_none(),
            },
    {
        match &self.icon {
            Some(i) => Some(i),
            None => None,
        }
    }

    /// The copy and large type texts, if any.
    pub fn text(&self) -> (res: Option<&ItemText>)
        ensures
            match res {
                Some(t) => self.text == Some(*t),
                None => self.text.is_none(),
            },
    {
        match &self.text {
            Some(t) => Some(t),
            None => None,
        }
    }

    /// Whether the entry can be chosen.
    pub fn valid(&self) -> (res: bool)
        ensures
            res == self.valid,
    {
        self.valid
    }
}

/// The text of an optional string.
pub open spec fn opt_view(value: Option<String>) -> Option<Seq<char>> {
    match value {
        Some(s) => Some(s@),
        None => None,
    }
}

/// The path of an optional icon.
pub open spec fn icon_view(icon: Option<ItemIcon>) -> Option<Seq<char>> {
    match icon {
        Some(i) => Some(i.path@),
        None => None,
    }
}

/// The copy text and large type of an optional item text.
pub open spec fn text_view(text: Option<ItemText>) -> Option<(Seq<char>, Option<Seq<char>>)> {
    match text {
        Some(t) => Some((t.copy@, opt_view(t.large_type))),
        None => None,
    }
}

/// `item` is the list entry for `result`: its title is the decoded deepest
/// hierarchy value (also its large type), its subtitle the displayed
/// breadcrumb, its uid the object id, and its argument, quick look address and
/// copy text the result's address; it has the result icon and can be selected.
pub open spec fn describes_result(item: AlfredItem, result: SearchResult) -> bool {
    let title = result.hierarchy.deepest();
    &&& item.title@ == decoded_html(title)
    &&& opt_view(item.uid) == Some(result.object_id@)
    &&& opt_view(item.subtitle) == Some(display_breadcrumb(result, title))
    &&& opt_view(item.arg) == Some(result.url@)
    &&& text_view(item.text) == Some((result.url@, Some(decoded_html(title))))
    &&& opt_view(item.quick_look_url) == Some(result.url@)
    &&& icon_view(item.icon) == Some(RESULT_ICON@)
    &&& item.valid
}

/// `items` are the entries for `results`, one for one, in order.
pub open spec fn describes_all(items: Seq<AlfredItem>, results: Seq<SearchResult>) -> bool {
    &&& items.len() == results.len()
    &&& forall|i: int| 0 <= i < items.len() ==> describes_result(#[trigger] items[i], results[i])
}

/// The entries shown for the results, in display order: group after group,
/// subgroup after subgroup, each in the order the results came.
pub open spec fn displayed_results(results: Seq<SearchResult>) -> Seq<SearchResult> {
    groups_results(grouped(results))
}

/// Builds the list entry for one result.
pub fn item_from_result(result: &SearchResult) -> (item: AlfredItem)
    ensures
        describes_result(item, *result),
{
    let title = result.hierarchy.last();
    let decoded_title = decode_html_text(title);
    let subtitle = breadcrumb(result, title);
    AlfredItem {
        title: decoded_title.clone(),
        subtitle: Some(subtitle),
        arg: Some(result.url.clone()),
        uid: Some(result.object_id.clone()),
        icon: Some(ItemIcon { path: RESULT_ICON.to_owned() }),
        text: Some(ItemText { copy: result.url.clone(), large_type: Some(decoded_title) }),
        quick_look_url: Some(result.url.clone()),
        valid: true,
    }
}

proof fn lemma_describes_push(items: Seq<AlfredItem>, results: Seq<SearchResult>, item: AlfredItem, result: SearchResult)
    requires
        describes_all(items, results),
        describes_result(item, result),
    ensures
        describes_all(items.push(item), results.push(result)),
{
    assert forall|i: int| 0 <= i < items.len() + 1 implies describes_result(#[trigger] items.push(item)[i], results.push(result)[i]) by {
        if i < items.len() {
            assert(items.push(item)[i] == items[i]);
            assert(results.push(result)[i] == results[i]);
        }
    }
}

/// Converts search results into list entries: grouped by root in first-seen
/// order, then by breadcrumb in first-seen order, each group's results in the
/// order they came.
pub fn items_from_results(results: &[SearchResult]) -> (items: Vec<AlfredItem>)
    ensures
        describes_all(items@, displayed_results(results@)),
        items@.len() == results@.len(),
{
    proof {
        law_grouping_is_permutation(results@);
    }
    let groups = group_results(results);
    let ghost gv = groups_view(groups@);
    let mut items: Vec<AlfredItem> = Vec::new();
    let mut g: usize = 0;
    proof {
        assert(gv.take(0) =~= Seq::<GroupView>::empty());
        assert(describes_all(items@, groups_results(gv.take(0))));
    }
    while g < groups.len()
        invariant
            gv == groups_view(groups@),
            g <= groups@.len(),
            describes_all(items@, groups_results(gv.take(g as int))),
        decreases groups.len() - g,
    {
        let group = &groups[g];
        let ghost sv = gv[g as int].1;
        let ghost done = groups_results(gv.take(g as int));
        let mut s: usize = 0;
        proof {
            assert(sv.take(0) =~= Seq::<SubgroupView>::empty());
            assert(done + subgroups_results(sv.take(0)) =~= done);
        }
        while s < group.subgroups.len()
            invariant
                sv == group.view_pair().1,
                s <= group.subgroups@.len(),
                describes_all(items@, done + subgroups_results(sv.take(s as int))),
            decreases group.subgroups.len() - s,
        {
            let subgroup = &group.subgroups[s];
            let ghost members = sv[s as int].1;
            let ghost before = done + subgroups_results(sv.take(s as int));
            let mut r: usize = 0;
            proof {
                assert(before + members.take(0) =~= before);
            }
            while r < subgroup.results.len()
                invariant
                    members == subgroup.view_pair().1,
                    r <= subgroup.results@.len(),
                    describes_all(items@, before + members.take(r as int)),
                decreases subgroup.results.len() - r,
            {
                let item = item_from_result(subgroup.results[r]);
                proof {
                    lemma_describes_push(items@, before + members.take(r as int), item, members[r as int]);
                    assert((before + members.take(r as int)).push(members[r as int]) =~= before + members.take(r + 1));
                }
                items.push(item);
                r = r + 1;
            }
            proof {
                assert(members.take(r as int) =~= members);
                assert(sv.take(s + 1).drop_last() =~= sv.take(s as int));
                assert(subgroups_results(sv.take(s + 1)) == subgroups_results(sv.take(s as int)) + members);
                assert(before + members =~= done + subgroups_results(sv.take(s + 1)));
            }
            s = s + 1;
        }
        proof {
            assert(sv.take(s as int) =~= sv);
            assert(gv.take(g + 1).drop_last() =~= gv.take(g as int));
            assert(groups_results(gv.take(g + 1)) == done + subgroups_results(sv));
        }
        g = g + 1;
    }
    proof {
        assert(gv.take(g as int) =~= gv);
    }
    items
}

/// `item` is the placeholder: only a title and the result icon, not selectable.
pub open spec fn is_placeholder(item: AlfredItem) -> bool {
    &&& item.title@ == PLACEHOLDER_TITLE@
    &&& icon_view(item.icon) == Some(RESULT_ICON@)
    &&& item.subtitle is None
    &&& item.arg is None
    &&& item.uid is None
    &&& item.text is None
    &&& item.quick_look_url is None
    &&& !item.valid
}

/// Builds the placeholder shown before the user enters a search query.
pub fn placeholder_item() -> (item: AlfredItem)
    ensures
        is_placeholder(item),
{
    AlfredItem {
        title: PLACEHOLDER_TITLE.to_owned(),
        subtitle: None,
        arg: None,
        uid: None,
        icon: Some(ItemIcon { path: RESULT_ICON.to_owned() }),
        text: None,
        quick_look_url: None,
        valid: false,
    }
}

/// `item` is the web search fallback for the search address `url`: it opens,
/// quick-looks and copies `url`, has the fallback title, subtitle and icon, no
/// uid and no large type, and can be selected.
pub open spec fn is_fallback_for(item: AlfredItem, url: Seq<char>) -> bool {
    &&& item.title@ == FALLBACK_TITLE@
    &&& opt_view(item.subtitle) == Some(FALLBACK_SUBTITLE@)
    &&& opt_view(item.arg) == Some(url)
    &&& item.uid is None
    &&& text_view(item.text) == Some((url, None::<Seq<char>>))
    &&& opt_view(item.quick_look_url) == Some(url)
    &&& icon_view(item.icon) == Some(FALLBACK_ICON@)
    &&& item.valid
}

/// Builds the web search fallback entry for an already built search address.
pub fn fallback_item(url: &str) -> (item: AlfredItem)
    ensures
        is_fallback_for(item, url@),
{
    AlfredItem {
        title: FALLBACK_TITLE.to_owned(),
        subtitle: Some(FALLBACK_SUBTITLE.to_owned()),
        arg: Some(url.to_owned()),
        uid: None,
        icon: Some(ItemIcon { path: FALLBACK_ICON.to_owned() }),
        text: Some(ItemText { copy: url.to_owned(), large_type: None }),
        quick_look_url: Some(url.to_owned()),
        valid: true,
    }
}

/// The outside error type of address parsing.
#[verifier::external_type_specification]
#[verifier::external_body]
pub struct ExUrlParseError(url::ParseError);

/// Why the web search fallback could not be built.
#[derive(Debug)]
pub enum FallbackError {
    /// The search address did not parse.
    InvalidUrl(url::ParseError),
}

/// A name for what `url::Url::parse_with_params` gives for the address `base`
/// with the single query pair `key`=`value`: the serialized address, or `None`
/// when `base` does not parse as an absolute address. Its parsing and
/// form encoding rules take pages, so nothing more is stated of it.
pub uninterp spec fn url_with_query_pair(base: Seq<char>, key: Seq<char>, value: Seq<char>) -> Option<Seq<char>>;

/// Calls `url::Url::parse_with_params` with one pair and serializes the
/// address. Trusted: the result is `url_with_query_pair` of the arguments, an
/// error exactly where that is `None`.
#[verifier::external_body]
fn parse_url_with_pair(base: &str, key: &str, value: &str) -> (res: Result<String, url::ParseError>)
    ensures
        match res {
            Ok(u) => url_with_query_pair(base@, key@, value@) == Some(u@),
            Err(_) => url_with_query_pair(base@, key@, value@) is None,
        },
{
    url::Url::parse_with_params(base, &[(key, value)]).map(String::from)
}

/// The web search query for `query`: `Vue.js ` followed by the query.
pub open spec fn fallback_query(query: Seq<char>) -> Seq<char> {
    FALLBACK_QUERY_PREFIX@ + query
}

/// The web search query is the whole query after the prefix `Vue.js `: it
/// starts with those seven characters and continues with every character of
/// the query, in order, and nothing else.
pub proof fn law_fallback_query_keeps_whole_query(query: Seq<char>)
    ensures
        fallback_query(query).len() == 7 + query.len(),
        fallback_query(query).take(7) == seq!['V', 'u', 'e', '.', 'j', 's', ' '],
        fallback_query(query).skip(7) == query,
{
    reveal_strlit("Vue.js ");
    assert(fallback_query(query).take(7) =~= seq!['V', 'u', 'e', '.', 'j', 's', ' ']);
    assert(fallback_query(query).skip(7) =~= query);
}

/// Builds the web search fallback shown when no result matched `query`.
pub fn google_fallback_item(query: &str) -> (res: Result<AlfredItem, FallbackError>)
    ensures
        match res {
            Ok(item) => url_with_query_pair(FALLBACK_SEARCH_URL@, FALLBACK_QUERY_KEY@, fallback_query(query@)) matches Some(u)
                && is_fallback_for(item, u),
            Err(_) => url_with_query_pair(FALLBACK_SEARCH_URL@, FALLBACK_QUERY_KEY@, fallback_query(query@)) is None,
        },
{
    let mut value = FALLBACK_QUERY_PREFIX.to_owned();
    value.append(query);
    match parse_url_with_pair(FALLBACK_SEARCH_URL, FALLBACK_QUERY_KEY, value.as_str()) {
        Ok(url) => Ok(fallback_item(url.as_str())),
        Err(e) => Err(FallbackError::InvalidUrl(e)),
    }
}

} // verus!
