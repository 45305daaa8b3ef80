//! A query for the issues that carry given labels, and what it lists.

use crate::collector::Collector;
use crate::issue::{
    append_issue_entries, apply_limit, distinct_urls, drop_excluded, groups, is_excluded,
    issue_entries, keep_unseen, lemma_filters_keep_distinct, lemma_not_excluded, lemma_unseen,
    lemma_unseen_keeps_first, limited, not_excluded, seen_with, unseen, urls, Issue, IssueView,
};
use crate::outside::join_with;
use crate::text::{append_joined, append_nat, decimal, joined, lemma_flatten_next, views};
use vstd::arithmetic::div_mod::lemma_fundamental_div_mod_converse;
use vstd::prelude::*;
use vstd::string::*;

verus! {

/// The order in which the tracker returns issues.
#[derive(Clone, Copy)]
pub enum Sort {
    Newest,
    Oldest,
    MostCommented,
    LeastCommented,
    MostRecentlyUpdated,
    LeastRecentlyUpdated,
}

impl Sort {
    /// What the issues are ordered by, as the tracker names it.
    pub open spec fn field_text(self) -> Seq<char> {
        match self {
            Sort::Newest | Sort::Oldest => "created"@,
            Sort::MostCommented | Sort::LeastCommented => "comments"@,
            Sort::MostRecentlyUpdated | Sort::LeastRecentlyUpdated => "updated"@,
        }
    }

    /// The direction of the order, as the tracker names it: descending where
    /// the newest, the most commented or the most recently updated issue
    /// comes first, ascending for the other three.
    pub open spec fn direction_text(self) -> Seq<char> {
        match self {
            Sort::Newest | Sort::MostCommented | Sort::MostRecentlyUpdated => "desc"@,
            Sort::Oldest | Sort::LeastCommented | Sort::LeastRecentlyUpdated => "asc"@,
        }
    }

    /// The order as the tracker's API takes it.
    pub open spec fn api_text(self) -> Seq<char> {
        "&sort="@ + self.field_text() + "&direction="@ + self.direction_text()
    }

    /// The order as the tracker's search page takes it: the same field and
    /// the same direction as in the API request.
    pub open spec fn web_ui_text(self) -> Seq<char> {
        "+sort:"@ + self.field_text() + "-"@ + self.direction_text()
    }

    /// The part of an API request that asks for this order.
    pub fn api_str(&self) -> (r: &'static str)
        ensures
            r@ == self.api_text(),
    {
        proof {
            reveal_strlit("&sort=");
            reveal_strlit("&direction=");
            reveal_strlit("created");
            reveal_strlit("comments");
            reveal_strlit("updated");
            reveal_strlit("desc");
            reveal_strlit("asc");
        }
        match self {
            Sort::Newest => {
                proof {
                    reveal_strlit("&sort=created&direction=desc");
                }
                let r = "&sort=created&direction=desc";
                assert(r@ =~= self.api_text());
                r
            },
            Sort::Oldest => {
                proof {
                    reveal_strlit("&sort=created&direction=asc");
                }
                let r = "&sort=created&direction=asc";
                assert(r@ =~= self.api_text());
                r
            },
            Sort::MostCommented => {
                proof {
                    reveal_strlit("&sort=comments&direction=desc");
                }
                let r = "&sort=comments&direction=desc";
                assert(r@ =~= self.api_text());
                r
            },
            Sort::LeastCommented => {
                proof {
                    reveal_strlit("&sort=comments&direction=asc");
                }
                let r = "&sort=comments&direction=asc";
                assert(r@ =~= self.api_text());
                r
            },
            Sort::MostRecentlyUpdated => {
                proof {
                    reveal_strlit("&sort=updated&direction=desc");
                }
                let r = "&sort=updated&direction=desc";
                assert(r@ =~= self.api_text());
                r
            },
            Sort::LeastRecentlyUpdated => {
                proof {
                    reveal_strlit("&sort=updated&direction=asc");
                }
                let r = "&sort=updated&direction=asc";
                assert(r@ =~= self.api_text());
                r
            },
        }
    }

    /// The part of a search link that asks for this order.
    pub fn web_ui_str(&self) -> (r: &'static str)
        ensures
            r@ == self.web_ui_text(),
    {
        proof {
            reveal_strlit("+sort:");
            reveal_strlit("-");
            reveal_strlit("created");
            reveal_strlit("comments");
            reveal_strlit("updated");
            reveal_strlit("desc");
            reveal_strlit("asc");
        }
        match self {
            Sort::Newest => {
                proof {
                    reveal_strlit("+sort:created-desc");
                }
                let r = "+sort:created-desc";
                assert(r@ =~= self.web_ui_text());
                r
            },
            Sort::Oldest => {
                proof {
                    reveal_strlit("+sort:created-asc");
                }
                let r = "+sort:created-asc";
                assert(r@ =~= self.web_ui_text());
                r
            },
            Sort::MostCommented => {
                proof {
                    reveal_strlit("+sort:comments-desc");
                }
                let r = "+sort:comments-desc";
                assert(r@ =~= self.web_ui_text());
                r
            },
            Sort::LeastCommented => {
                proof {
                    reveal_strlit("+sort:comments-asc");
                }
                let r = "+sort:comments-asc";
                assert(r@ =~= self.web_ui_text());
                r
            },
            Sort::MostRecentlyUpdated => {
                proof {
                    reveal_strlit("+sort:updated-desc");
                }
                let r = "+sort:updated-desc";
                assert(r@ =~= self.web_ui_text());
                r
            },
            Sort::LeastRecentlyUpdated => {
                proof {
                    reveal_strlit("+sort:updated-asc");
                }
                let r = "+sort:updated-asc";
                assert(r@ =~= self.web_ui_text());
                r
            },
        }
    }
}

/// Which issues a query asks for: open ones, closed ones, or both.
#[derive(Clone, Copy)]
pub enum State {
    Open,
    Closed,
    Any,
}

impl State {
    /// The state as the tracker's API takes it.
    pub open spec fn api_text(self) -> Seq<char> {
        match self {
            State::Open => "&state=open"@,
            State::Closed => "&state=closed"@,
            State::Any => "&state=all"@,
        }
    }

    /// The state as the tracker's search page takes it.
    pub open spec fn web_ui_text(self) -> Seq<char> {
        match self {
            State::Open => "+is:open"@,
            State::Closed => "+is:closed"@,
            State::Any => ""@,
        }
    }

    /// The part of an API request that asks for this state.
    pub fn api_str(&self) -> (r: &'static str)
        ensures
            r@ == self.api_text(),
    {
        match self {
            State::Open => "&state=open",
            State::Closed => "&state=closed",
            State::Any => "&state=all",
        }
    }

    /// The part of a search link that asks for this state.
    pub fn web_ui_str(&self) -> (r: &'static str)
        ensures
            r@ == self.web_ui_text(),
    {
        match self {
            State::Open => "+is:open",
            State::Closed => "+is:closed",
            State::Any => "",
        }
    }
}

/// The request part for an order, empty where none was set.
pub open spec fn sort_api_text(sort: Option<Sort>) -> Seq<char> {
    match sort {
        Some(s) => s.api_text(),
        None => Seq::empty(),
    }
}

/// The link part for an order, empty where none was set.
pub open spec fn sort_web_ui_text(sort: Option<Sort>) -> Seq<char> {
    match sort {
        Some(s) => s.web_ui_text(),
        None => Seq::empty(),
    }
}

/// One section of the agenda: the issues of some repositories that carry all
/// labels of one of the label groups.
///
/// Each repository is asked once for each label group. A label group is
/// written in the order in which its labels were given.
pub struct GithubQuery {
    pub name: &'static str,
    pub labels: Vec<&'static [&'static str]>,
    pub excluded_labels: Vec<&'static [&'static str]>,
    pub repos: Vec<&'static str>,
    pub sort: Option<Sort>,
    pub count: Option<usize>,
    pub state: State,
}

/// What a [`GithubQuery`] holds.
pub struct QueryView {
    pub name: Seq<char>,
    pub labels: Seq<Seq<Seq<char>>>,
    pub excluded_labels: Seq<Seq<Seq<char>>>,
    pub repos: Seq<Seq<char>>,
    pub sort: Option<Sort>,
    pub count: Option<usize>,
    pub state: State,
}

impl View for GithubQuery {
    type V = QueryView;

    open spec fn view(&self) -> QueryView {
        QueryView {
            name: self.name@,
            labels: groups(self.labels@),
            excluded_labels: groups(self.excluded_labels@),
            repos: views(self.repos@),
            sort: self.sort,
            count: self.count,
            state: self.state,
        }
    }
}

/// What one request of a query listed: the repository, the label group, and
/// the issues that were left.
pub struct Listing {
    pub repo: &'static str,
    pub labels: &'static [&'static str],
    pub issues: Vec<Issue>,
}

/// What a [`Listing`] holds.
pub struct ListingView {
    pub repo: Seq<char>,
    pub labels: Seq<Seq<char>>,
    pub issues: Seq<IssueView>,
}

impl View for Listing {
    type V = ListingView;

    open spec fn view(&self) -> ListingView {
        ListingView { repo: self.repo@, labels: views(self.labels@), issues: views(self.issues@) }
    }
}

/// The API request for the issues of `repo` that carry all of `labels`.
pub open spec fn endpoint(q: QueryView, repo: Seq<char>, labels: Seq<Seq<char>>) -> Seq<char> {
    "repos/"@ + repo + "/issues?labels="@ + joined(labels, ","@) + q.state.api_text()
        + sort_api_text(q.sort)
}

/// For each label the search term that asks for it.
pub open spec fn label_terms(labels: Seq<Seq<char>>) -> Seq<Seq<char>> {
    Seq::new(labels.len(), |i: int| "label:"@ + labels[i])
}

/// The link to the tracker's search page that shows what the API request for
/// `repo` and `labels` asks for.
pub open spec fn web_url(q: QueryView, repo: Seq<char>, labels: Seq<Seq<char>>) -> Seq<char> {
    "https://github.com/"@ + repo + "/issues?q="@ + joined(label_terms(labels), "+"@)
        + q.state.web_ui_text() + sort_web_ui_text(q.sort)
}

/// The number of requests of a query: one for each repository and label
/// group.
pub open spec fn request_count(q: QueryView) -> int {
    (q.repos.len() as int) * (q.labels.len() as int)
}

/// The repository of the `k`th request: the requests of the first repository
/// come first, then those of the second, and so on.
pub open spec fn request_repo(q: QueryView, k: int) -> Seq<char> {
    q.repos[k / (q.labels.len() as int)]
}

/// The label group of the `k`th request: for each repository the groups
/// follow in the order in which they were added.
pub open spec fn request_labels(q: QueryView, k: int) -> Seq<Seq<char>> {
    q.labels[k % (q.labels.len() as int)]
}

/// The API requests of a query, in the order in which they are made.
pub open spec fn endpoints(q: QueryView) -> Seq<Seq<char>> {
    Seq::new(
        request_count(q) as nat,
        |k: int| endpoint(q, request_repo(q, k), request_labels(q, k)),
    )
}

/// What is left of one answer: the issues that were not seen before, that no
/// excluded group drops, up to the limit.
pub open spec fn surviving(q: QueryView, seen: Set<Seq<char>>, batch: Seq<IssueView>) -> Seq<
    IssueView,
> {
    limited(not_excluded(unseen(seen, batch), q.excluded_labels), q.count)
}

/// The URLs that were seen when the first `k` answers have been gone
/// through: those seen before and those of every issue of these answers.
pub open spec fn seen_through(
    seen: Set<Seq<char>>,
    fetched: Seq<Seq<IssueView>>,
    k: int,
) -> Set<Seq<char>>
    decreases k,
{
    if k <= 0 {
        seen
    } else {
        seen_with(seen_through(seen, fetched, k - 1), fetched[k - 1])
    }
}

/// What the first `k` requests of a query list, given the answers to them:
/// for each request with anything left, in order, a listing.
pub open spec fn listings(
    q: QueryView,
    seen: Set<Seq<char>>,
    fetched: Seq<Seq<IssueView>>,
    k: int,
) -> Seq<ListingView>
    decreases k,
{
    if k <= 0 {
        Seq::empty()
    } else {
        let before = listings(q, seen, fetched, k - 1);
        let issues = surviving(q, seen_through(seen, fetched, k - 1), fetched[k - 1]);
        if issues.len() == 0 {
            before
        } else {
            before.push(
                ListingView {
                    repo: request_repo(q, k - 1),
                    labels: request_labels(q, k - 1),
                    issues,
                },
            )
        }
    }
}

/// The answers as sequences of issues.
pub open spec fn batches(fetched: Seq<Vec<Issue>>) -> Seq<Seq<IssueView>> {
    Seq::new(fetched.len(), |i: int| views(fetched[i]@))
}

/// The lines of one listing: a line with the number of issues, the
/// repository, the labels and the search link, then the issues.
pub open spec fn listing_text(q: QueryView, l: ListingView) -> Seq<char> {
    "- ["@ + decimal(l.issues.len() as int) + " `"@ + l.repo + "` `"@ + joined(l.labels, "` `"@)
        + "` items]("@ + web_url(q, l.repo, l.labels) + ")\n"@ + issue_entries(l.issues)
}

/// The texts of the listings, in order.
pub open spec fn listing_texts(q: QueryView, ls: Seq<ListingView>) -> Seq<Seq<char>> {
    Seq::new(ls.len(), |i: int| listing_text(q, ls[i]))
}

/// The section of a query whose requests listed `ls`: the heading, the
/// listings, the line `None` where there is no listing, and an empty line.
pub open spec fn section_of(q: QueryView, ls: Seq<ListingView>) -> Seq<char> {
    "### "@ + q.name + "\n"@ + "\n"@ + listing_texts(q, ls).flatten() + (if ls.len() == 0 {
        "None\n"@
    } else {
        Seq::empty()
    }) + "\n"@
}

/// The section of a query, given what was seen before it and the answers to
/// its requests.
pub open spec fn section_text(
    q: QueryView,
    seen: Set<Seq<char>>,
    fetched: Seq<Seq<IssueView>>,
) -> Seq<char> {
    section_of(q, listings(q, seen, fetched, fetched.len() as int))
}

impl GithubQuery {
    /// A query with the given heading, for open issues, without labels,
    /// repositories, order or limit.
    pub fn new(name: &'static str) -> (r: GithubQuery)
        ensures
            r@ == (QueryView {
                name: name@,
                labels: Seq::empty(),
                excluded_labels: Seq::empty(),
                repos: Seq::empty(),
                sort: None,
                count: None,
                state: State::Open,
            }),
            r.state is Open,
    {
        let r = GithubQuery {
            name,
            labels: Vec::new(),
            excluded_labels: Vec::new(),
            repos: Vec::new(),
            sort: None,
            count: None,
            state: State::Open,
        };
        assert(r@.labels =~= Seq::empty());
        assert(r@.excluded_labels =~= Seq::empty());
        assert(r@.repos =~= Seq::empty());
        r
    }

    /// Adds a label group: the query also lists the issues that carry all of
    /// these labels.
    pub fn labels(self, labels: &'static [&'static str]) -> (r: GithubQuery)
        ensures
            r@ == (QueryView { labels: self@.labels.push(views(labels@)), ..self@ }),
    {
        let mut r = self;
        r.labels.push(labels);
        assert(r@.labels =~= self@.labels.push(views(labels@)));
        r
    }

    /// Adds an excluded group: an issue that carries all of these labels is
    /// not listed.
    pub fn exclude_labels(self, labels: &'static [&'static str]) -> (r: GithubQuery)
        ensures
            r@ == (QueryView {
                excluded_labels: self@.excluded_labels.push(views(labels@)),
                ..self@
            }),
    {
        let mut r = self;
        r.excluded_labels.push(labels);
        assert(r@.excluded_labels =~= self@.excluded_labels.push(views(labels@)));
        r
    }

    /// Adds a repository to ask.
    pub fn repo(self, repo: &'static str) -> (r: GithubQuery)
        ensures
            r@ == (QueryView { repos: self@.repos.push(repo@), ..self@ }),
    {
        let mut r = self;
        r.repos.push(repo);
        assert(r@.repos =~= self@.repos.push(repo@));
        r
    }

    /// Sets the order in which the tracker is to return the issues.
    pub fn sort(self, sort: Sort) -> (r: GithubQuery)
        ensures
            r@ == (QueryView { sort: Some(sort), ..self@ }),
    {
        let mut r = self;
        r.sort = Some(sort);
        r
    }

    /// Sets the limit: of each answer at most the first `count` issues that
    /// are left are listed.
    pub fn take(self, count: usize) -> (r: GithubQuery)
        ensures
            r@ == (QueryView { count: Some(count), ..self@ }),
    {
        let mut r = self;
        r.count = Some(count);
        r
    }

    /// Sets whether open issues, closed ones or both are asked for.
    pub fn state(self, state: State) -> (r: GithubQuery)
        ensures
            r@ == (QueryView { state, ..self@ }),
    {
        let mut r = self;
        r.state = state;
        r
    }

    fn endpoint_for(&self, repo: &str, labels: &[&str]) -> (r: String)
        ensures
            r@ == endpoint(self@, repo@, views(labels@)),
    {
        let mut r = String::new();
        r.append("repos/");
        r.append(repo);
        r.append("/issues?labels=");
        append_joined(&mut r, labels, ",");
        r.append(self.state.api_str());
        match self.sort {
            Some(sort) => {
                r.append(sort.api_str());
            },
            None => {},
        }
        assert(r@ =~= endpoint(self@, repo@, views(labels@)));
        r
    }

    fn web_url_for(&self, repo: &str, labels: &[&str]) -> (r: String)
        ensures
            r@ == web_url(self@, repo@, views(labels@)),
    {
        let mut terms: Vec<String> = Vec::new();
        let mut i: usize = 0;
        while i < labels.len()
            invariant
                i <= labels.len(),
                views(terms@) == label_terms(views(labels@)).take(i as int),
            decreases labels.len() - i,
        {
            let ghost before = terms@;
            let mut term = String::new();
            term.append("label:");
            term.append(labels[i]);
            assert(term@ =~= "label:"@ + labels@[i as int]@);
            terms.push(term);
            proof {
                crate::text::lemma_views_push(before, term);
                assert(views(before).push(term@) =~= label_terms(views(labels@)).take(i + 1));
            }
            i += 1;
        }
        assert(label_terms(views(labels@)).take(labels.len() as int) =~= label_terms(
            views(labels@),
        ));
        let mut r = String::new();
        r.append("https://github.com/");
        r.append(repo);
        r.append("/issues?q=");
        let query = join_with(&terms, "+");
        r.append(query.as_str());
        r.append(self.state.web_ui_str());
        match self.sort {
            Some(sort) => {
                r.append(sort.web_ui_str());
            },
            None => {},
        }
        assert(r@ =~= web_url(self@, repo@, views(labels@)));
        r
    }

    /// The API requests that the query needs, in the order in which their
    /// answers are to be given to [`GithubQuery::execute`] and
    /// [`GithubQuery::write`].
    pub fn endpoints(&self) -> (r: Vec<String>)
        ensures
            views(r@) == endpoints(self@),
            r.len() == request_count(self@),
    {
        let n = self.repos.len();
        let m = self.labels.len();
        let mut r: Vec<String> = Vec::new();
        let mut i: usize = 0;
        while i < n
            invariant
                i <= n,
                n == self.repos.len(),
                m == self.labels.len(),
                r.len() == i * m,
                forall|k: int| 0 <= k < r.len() ==> (#[trigger] r@[k])@ == endpoints(self@)[k],
            decreases n - i,
        {
            let mut j: usize = 0;
            while j < m
                invariant
                    i < n,
                    j <= m,
                    n == self.repos.len(),
                    m == self.labels.len(),
                    r.len() == i * m + j,
                    forall|k: int|
                        0 <= k < r.len() ==> (#[trigger] r@[k])@ == endpoints(self@)[k],
                decreases m - j,
            {
                let e = self.endpoint_for(self.repos[i], self.labels[j]);
                proof {
                    let k = i * m + j;
                    lemma_fundamental_div_mod_converse(k, m as int, i as int, j as int);
                    assert(k < n * m) by (nonlinear_arith)
                        requires
                            k == i * m + j,
                            i < n,
                            j < m,
                    ;
                }
                r.push(e);
                j += 1;
            }
            assert((i + 1) * m == i * m + m) by (nonlinear_arith);
            i += 1;
        }
        assert(views(r@) =~= endpoints(self@));
        r
    }

    /// Goes through the answers to the requests of the query, in order.
    /// Every issue passes through the collector: one whose URL was seen is
    /// dropped, and the URL of any other is recorded, whether the issue is
    /// listed or not. Of those that are left the ones that an excluded group
    /// drops go, and then all beyond the limit. A request with nothing left
    /// gives no listing.
    pub fn execute(&self, dedup: &mut Collector, fetched: Vec<Vec<Issue>>) -> (r: Vec<Listing>)
        requires
            fetched.len() == request_count(self@),
        ensures
            views(r@) == listings(self@, old(dedup)@, batches(fetched@), fetched.len() as int),
            final(dedup)@ == seen_through(old(dedup)@, batches(fetched@), fetched.len() as int),
    {
        let n = self.repos.len();
        let m = self.labels.len();
        let ghost all = batches(fetched@);
        let ghost seen = dedup@;
        let mut r: Vec<Listing> = Vec::new();
        let mut i: usize = 0;
        let mut j: usize = 0;
        assert(views(r@) =~= Seq::<ListingView>::empty());
        assert(m == 0 ==> fetched.len() == 0) by (nonlinear_arith)
            requires
                fetched.len() == n * m,
        ;
        for batch in it: fetched
            invariant
                it.seq() == fetched@,
                all == batches(fetched@),
                fetched.len() == n * m,
                n == self.repos.len(),
                m == self.labels.len(),
                it.index() == i * m + j,
                j < m || it.index() == fetched.len(),
                views(r@) == listings(self@, seen, all, it.index() as int),
                dedup@ == seen_through(seen, all, it.index() as int),
        {
            let ghost k = it.index() as int;
            let ghost before = r@;
            proof {
                assert(i < n) by (nonlinear_arith)
                    requires
                        k == i * m + j,
                        k < n * m,
                        0 <= j,
                ;
                lemma_fundamental_div_mod_converse(k, m as int, i as int, j as int);
                assert(all[k] == views(batch@));
            }
            let repo = self.repos[i];
            let labels = self.labels[j];
            let kept = keep_unseen(dedup, batch);
            let allowed = drop_excluded(kept, &self.excluded_labels);
            let issues = apply_limit(allowed, self.count);
            if issues.len() > 0 {
                let listing = Listing { repo, labels, issues };
                r.push(listing);
                proof {
                    crate::text::lemma_views_push(before, listing);
                }
            }
            j += 1;
            if j == m {
                assert((i + 1) * m + 0 == i * m + m) by (nonlinear_arith);
                j = 0;
                i += 1;
                assert(i * m + j <= n * m) by (nonlinear_arith)
                    requires
                        i <= n,
                        j == 0,
                ;
            }
        }
        r
    }

    fn append_listing(&self, out: &mut String, listing: &Listing)
        ensures
            final(out)@ == old(out)@ + listing_text(self@, listing@),
    {
        out.append("- [");
        append_nat(out, listing.issues.len() as u64);
        out.append(" `");
        out.append(listing.repo);
        out.append("` `");
        append_joined(out, listing.labels, "` `");
        out.append("` items](");
        let url = self.web_url_for(listing.repo, listing.labels);
        out.append(url.as_str());
        out.append(")\n");
        let ghost head = out@;
        append_issue_entries(out, &listing.issues);
        assert(head =~= old(out)@ + ("- ["@ + decimal(listing@.issues.len() as int) + " `"@
            + listing@.repo + "` `"@ + joined(listing@.labels, "` `"@) + "` items]("@ + web_url(
            self@,
            listing@.repo,
            listing@.labels,
        ) + ")\n"@));
        assert(out@ =~= old(out)@ + listing_text(self@, listing@));
    }

    /// Appends the section of the query to `out`, given the answers to its
    /// requests.
    pub fn write_to(&self, out: &mut String, dedup: &mut Collector, fetched: Vec<Vec<Issue>>)
        requires
            fetched.len() == request_count(self@),
        ensures
            final(out)@ == old(out)@ + section_text(self@, old(dedup)@, batches(fetched@)),
            final(dedup)@ == seen_through(old(dedup)@, batches(fetched@), fetched.len() as int),
    {
        out.append("### ");
        out.append(self.name);
        out.append("\n");
        out.append("\n");
        let ghost head = out@;
        let found = self.execute(dedup, fetched);
        let ghost parts = listing_texts(self@, views(found@));
        let mut i: usize = 0;
        while i < found.len()
            invariant
                i <= found.len(),
                parts == listing_texts(self@, views(found@)),
                out@ == head + parts.take(i as int).flatten(),
            decreases found.len() - i,
        {
            let ghost before = out@;
            self.append_listing(out, &found[i]);
            proof {
                lemma_flatten_next(parts, i as int);
                assert(out@ =~= before + parts[i as int]);
            }
            i += 1;
        }
        assert(parts.take(found.len() as int) =~= parts);
        if found.len() == 0 {
            out.append("None\n");
        }
        out.append("\n");
        assert(out@ =~= old(out)@ + section_text(self@, old(dedup)@, batches(fetched@)));
    }
}

/// A query without label groups makes no request and lists nothing: its
/// section holds the heading and the line `None`.
pub proof fn lemma_no_groups_lists_nothing(
    q: QueryView,
    seen: Set<Seq<char>>,
    fetched: Seq<Seq<IssueView>>,
)
    requires
        q.labels.len() == 0,
        fetched.len() == request_count(q),
    ensures
        listings(q, seen, fetched, fetched.len() as int) == Seq::<ListingView>::empty(),
        section_text(q, seen, fetched) == "### "@ + q.name + "\n"@ + "\n"@ + "None\n"@ + "\n"@,
{
    assert(fetched.len() == 0) by (nonlinear_arith)
        requires
            fetched.len() == q.repos.len() * q.labels.len(),
            q.labels.len() == 0,
    ;
    assert(listing_texts(q, Seq::<ListingView>::empty()).flatten() =~= Seq::<char>::empty());
    assert(section_text(q, seen, fetched) =~= "### "@ + q.name + "\n"@ + "\n"@ + "None\n"@
        + "\n"@);
}

/// Whether a listing is one that a query may give: it is not empty, it is no
/// longer than the limit, and none of its issues carries every label of an
/// excluded group.
pub open spec fn well_listed(q: QueryView, l: ListingView) -> bool {
    &&& l.issues.len() > 0
    &&& q.count matches Some(n) ==> l.issues.len() <= n
    &&& forall|x: int|
        0 <= x < l.issues.len() ==> !is_excluded((#[trigger] l.issues[x]).labels, q.excluded_labels)
}

/// Whichever label group had an issue fetched, an issue that carries every
/// label of an excluded group is in no listing; no listing is empty, and none
/// is longer than the limit.
pub proof fn lemma_listings_well_listed(
    q: QueryView,
    seen: Set<Seq<char>>,
    fetched: Seq<Seq<IssueView>>,
    k: int,
)
    requires
        0 <= k <= fetched.len(),
    ensures
        forall|i: int|
            0 <= i < listings(q, seen, fetched, k).len() ==> well_listed(
                q,
                #[trigger] listings(q, seen, fetched, k)[i],
            ),
    decreases k,
{
    if k > 0 {
        lemma_listings_well_listed(q, seen, fetched, k - 1);
        let before = seen_through(seen, fetched, k - 1);
        let left = not_excluded(unseen(before, fetched[k - 1]), q.excluded_labels);
        lemma_not_excluded(unseen(before, fetched[k - 1]), q.excluded_labels);
        let issues = surviving(q, before, fetched[k - 1]);
        assert forall|x: int| 0 <= x < issues.len() implies !is_excluded(
            (#[trigger] issues[x]).labels,
            q.excluded_labels,
        ) by {
            assert(issues[x] == left[x]);
        }
        let earlier = listings(q, seen, fetched, k - 1);
        let now = listings(q, seen, fetched, k);
        assert forall|i: int| 0 <= i < now.len() implies well_listed(q, #[trigger] now[i]) by {
            if i < earlier.len() {
                assert(now[i] == earlier[i]);
            }
        }
    }
}

/// The URLs of the issues of the listings, in the order of the listings.
pub open spec fn listed_urls(ls: Seq<ListingView>) -> Seq<Seq<char>>
    decreases ls.len(),
{
    if ls.len() == 0 {
        Seq::empty()
    } else {
        listed_urls(ls.drop_last()) + urls(ls.last().issues)
    }
}

/// Going through answers forgets nothing: what was seen stays seen, and the
/// URL of every issue of the answers gone through is seen.
pub proof fn lemma_seen_through_grows(
    seen: Set<Seq<char>>,
    fetched: Seq<Seq<IssueView>>,
    k: int,
)
    requires
        0 <= k <= fetched.len(),
    ensures
        forall|u: Seq<char>|
            seen.contains(u) ==> #[trigger] seen_through(seen, fetched, k).contains(u),
        forall|i: int, x: int|
            0 <= i < k && 0 <= x < fetched[i].len() ==> seen_through(seen, fetched, k).contains(
                (#[trigger] fetched[i][x]).html_url,
            ),
    decreases k,
{
    if k > 0 {
        lemma_seen_through_grows(seen, fetched, k - 1);
        let before = seen_through(seen, fetched, k - 1);
        let batch = fetched[k - 1];
        assert forall|i: int, x: int| 0 <= i < k && 0 <= x < fetched[i].len() implies seen_through(
            seen,
            fetched,
            k,
        ).contains((#[trigger] fetched[i][x]).html_url) by {
            if i == k - 1 {
                assert(urls(batch)[x] == batch[x].html_url);
                assert(urls(batch).contains(batch[x].html_url));
            }
        }
    }
}

/// No issue is listed twice: among all the issues that the requests of a
/// query list no URL occurs twice, none was seen before the query, and all
/// are seen after it.
pub proof fn lemma_listed_once(
    q: QueryView,
    seen: Set<Seq<char>>,
    fetched: Seq<Seq<IssueView>>,
    k: int,
)
    requires
        0 <= k <= fetched.len(),
    ensures
        listed_urls(listings(q, seen, fetched, k)).no_duplicates(),
        forall|u: Seq<char>| #[trigger]
            listed_urls(listings(q, seen, fetched, k)).contains(u) ==> !seen.contains(u)
                && seen_through(seen, fetched, k).contains(u),
    decreases k,
{
    if k > 0 {
        lemma_listed_once(q, seen, fetched, k - 1);
        lemma_seen_through_grows(seen, fetched, k - 1);
        lemma_seen_through_grows(seen, fetched, k);
        let before = seen_through(seen, fetched, k - 1);
        let batch = fetched[k - 1];
        let fresh = unseen(before, batch);
        let issues = surviving(q, before, batch);
        lemma_unseen(before, batch);
        lemma_filters_keep_distinct(fresh, q.excluded_labels, q.count);
        let earlier = listings(q, seen, fetched, k - 1);
        let old_urls = listed_urls(earlier);
        let new_urls = urls(issues);
        // what is new was not seen before this request, and is seen after it
        assert forall|x: int| 0 <= x < issues.len() implies !before.contains(
            (#[trigger] issues[x]).html_url,
        ) && seen_through(seen, fetched, k).contains(issues[x].html_url) by {
            assert(fresh.contains(issues[x]));
            let m = choose|m: int| 0 <= m < fresh.len() && fresh[m] == issues[x];
            assert(batch.contains(fresh[m]));
            let n = choose|n: int| 0 <= n < batch.len() && batch[n] == fresh[m];
            assert(fetched[k - 1][n].html_url == issues[x].html_url);
        }
        if issues.len() > 0 {
            let now = listings(q, seen, fetched, k);
            assert(now.drop_last() =~= earlier);
            let all = listed_urls(now);
            assert(all == old_urls + new_urls);
            assert forall|i: int, j: int| 0 <= i < all.len() && 0 <= j < all.len() && i
                != j implies all[i] != all[j] by {
                let (a, b) = if i < j {
                    (i, j)
                } else {
                    (j, i)
                };
                if b < old_urls.len() {
                    assert(old_urls[a] != old_urls[b]);
                } else if a < old_urls.len() {
                    assert(old_urls.contains(old_urls[a]));
                    assert(before.contains(old_urls[a]));
                    assert(new_urls[b - old_urls.len()] == issues[b - old_urls.len()].html_url);
                } else {
                    assert(new_urls[a - old_urls.len()] == issues[a - old_urls.len()].html_url);
                    assert(new_urls[b - old_urls.len()] == issues[b - old_urls.len()].html_url);
                }
            }
            assert forall|u: Seq<char>| #[trigger] all.contains(u) implies !seen.contains(u)
                && seen_through(seen, fetched, k).contains(u) by {
                let m = choose|m: int| 0 <= m < all.len() && all[m] == u;
                if m < old_urls.len() {
                    assert(old_urls[m] == u);
                    assert(old_urls.contains(u));
                } else {
                    assert(new_urls[m - old_urls.len()] == issues[m - old_urls.len()].html_url);
                }
            }
        }
    }
}

/// The URLs of two runs of listings are those of the first run and then
/// those of the second.
pub proof fn lemma_listed_urls_concat(a: Seq<ListingView>, b: Seq<ListingView>)
    ensures
        listed_urls(a + b) == listed_urls(a) + listed_urls(b),
    decreases b.len(),
{
    if b.len() == 0 {
        assert(a + b =~= a);
        assert(listed_urls(a) + listed_urls(b) =~= listed_urls(a));
    } else {
        lemma_listed_urls_concat(a, b.drop_last());
        assert((a + b).drop_last() =~= a + b.drop_last());
        assert(listed_urls(a + b) =~= listed_urls(a) + listed_urls(b));
    }
}

/// A URL is seen after some answers only if it was seen before them or one
/// of their issues has it.
pub proof fn lemma_seen_through_only(
    seen: Set<Seq<char>>,
    fetched: Seq<Seq<IssueView>>,
    k: int,
    u: Seq<char>,
)
    requires
        0 <= k <= fetched.len(),
        seen_through(seen, fetched, k).contains(u),
    ensures
        seen.contains(u) || exists|j: int, y: int|
            0 <= j < k && 0 <= y < fetched[j].len() && (#[trigger] fetched[j][y]).html_url == u,
    decreases k,
{
    if k > 0 {
        let before = seen_through(seen, fetched, k - 1);
        let batch = fetched[k - 1];
        if before.contains(u) {
            lemma_seen_through_only(seen, fetched, k - 1, u);
        } else {
            assert(urls(batch).contains(u));
            let y = choose|y: int| 0 <= y < urls(batch).len() && urls(batch)[y] == u;
            assert(fetched[k - 1][y].html_url == u);
        }
    }
}

/// What the request `i` of a query lists, given what was seen before the
/// query and the answers to its requests.
pub open spec fn request_listing(
    q: QueryView,
    seen: Set<Seq<char>>,
    fetched: Seq<Seq<IssueView>>,
    i: int,
) -> ListingView {
    ListingView {
        repo: request_repo(q, i),
        labels: request_labels(q, i),
        issues: surviving(q, seen_through(seen, fetched, i), fetched[i]),
    }
}

/// A request with anything left has its listing among the listings, under
/// its repository and its label group.
pub proof fn lemma_request_is_listed(
    q: QueryView,
    seen: Set<Seq<char>>,
    fetched: Seq<Seq<IssueView>>,
    k: int,
    i: int,
)
    requires
        0 <= i < k <= fetched.len(),
        request_listing(q, seen, fetched, i).issues.len() > 0,
    ensures
        listings(q, seen, fetched, k).contains(request_listing(q, seen, fetched, i)),
    decreases k,
{
    let now = listings(q, seen, fetched, k);
    if k == i + 1 {
        assert(now[now.len() - 1] == request_listing(q, seen, fetched, i));
    } else {
        lemma_request_is_listed(q, seen, fetched, k - 1, i);
        let earlier = listings(q, seen, fetched, k - 1);
        let l = choose|l: int|
            0 <= l < earlier.len() && earlier[l] == request_listing(q, seen, fetched, i);
        assert(now[l] == earlier[l]);
    }
}

/// Where no limit is set, an issue is listed under the first request that
/// returned its URL: if the URL was not seen before the query, no earlier
/// answer and no earlier issue of the same answer has it, and no excluded
/// group drops the issue, then the request's listing holds the issue and is
/// among the listings of the query.
pub proof fn lemma_first_request_lists(
    q: QueryView,
    seen: Set<Seq<char>>,
    fetched: Seq<Seq<IssueView>>,
    k: int,
    i: int,
    x: int,
)
    requires
        0 <= i < k <= fetched.len(),
        0 <= x < fetched[i].len(),
        q.count is None,
        !seen.contains(fetched[i][x].html_url),
        forall|j: int, y: int|
            0 <= j < i && 0 <= y < fetched[j].len() ==> (#[trigger] fetched[j][y]).html_url
                != fetched[i][x].html_url,
        forall|y: int| 0 <= y < x ==> (#[trigger] fetched[i][y]).html_url != fetched[i][x].html_url,
        !is_excluded(fetched[i][x].labels, q.excluded_labels),
    ensures
        request_listing(q, seen, fetched, i).issues.contains(fetched[i][x]),
        listings(q, seen, fetched, k).contains(request_listing(q, seen, fetched, i)),
{
    let issue = fetched[i][x];
    let before = seen_through(seen, fetched, i);
    if before.contains(issue.html_url) {
        lemma_seen_through_only(seen, fetched, i, issue.html_url);
    }
    lemma_unseen_keeps_first(before, fetched[i], x);
    let fresh = unseen(before, fetched[i]);
    let m = choose|m: int| 0 <= m < fresh.len() && fresh[m] == issue;
    lemma_not_excluded(fresh, q.excluded_labels);
    assert(!is_excluded(fresh[m].labels, q.excluded_labels));
    assert(not_excluded(fresh, q.excluded_labels).contains(fresh[m]));
    lemma_request_is_listed(q, seen, fetched, k, i);
}

} // verus!
