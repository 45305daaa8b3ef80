//! The three agendas: what each is called, which team's proposals it lists,
//! and which queries make up its triage part.

use crate::fcp::ProposalView;
use crate::issue::{Issue, IssueView};
use crate::query::{
    batches, lemma_listed_once, lemma_listed_urls_concat, lemma_seen_through_grows, listed_urls,
    listings, request_count, section_text, seen_through, GithubQuery, ListingView, QueryView, Sort,
    State,
};
use crate::text::views;
use vstd::prelude::*;

verus! {

/// The meeting that an agenda is for.
#[derive(Clone, Copy)]
pub enum Variant {
    LibsApi,
    Libs,
    ErrorHandlingPG,
}

/// The view of a query for open issues without excluded groups, order or
/// limit.
pub open spec fn plain_query(
    name: Seq<char>,
    labels: Seq<Seq<Seq<char>>>,
    repos: Seq<Seq<char>>,
) -> QueryView {
    QueryView {
        name,
        labels,
        excluded_labels: Seq::empty(),
        repos,
        sort: None,
        count: None,
        state: State::Open,
    }
}

/// The queries of the Libs-API agenda.
pub open spec fn libs_api_queries() -> Seq<QueryView> {
    seq![
        plain_query(
            "Nominated"@,
            seq![seq!["T-libs-api"@, "I-nominated"@]],
            seq!["rust-lang/libs-team"@, "rust-lang/rust"@, "rust-lang/rfcs"@],
        ),
        plain_query(
            "Waiting on team"@,
            seq![seq!["T-libs-api"@, "S-waiting-on-team"@]],
            seq!["rust-lang/rust"@, "rust-lang/rfcs"@],
        ),
        plain_query(
            "Needs decision"@,
            seq![seq!["T-libs-api"@, "I-needs-decision"@]],
            seq!["rust-lang/rust"@],
        ),
        QueryView {
            sort: Some(Sort::LeastRecentlyUpdated),
            count: Some(5usize),
            ..plain_query(
                "Stalled Tracking Issues"@,
                seq![seq!["T-libs-api"@, "C-tracking-issue"@]],
                seq!["rust-lang/rust"@],
            )
        },
    ]
}

/// The queries of the Libs agenda.
pub open spec fn libs_queries() -> Seq<QueryView> {
    seq![
        plain_query(
            "Critical"@,
            seq![seq!["T-libs"@, "P-critical"@], seq!["T-libs-api"@, "P-critical"@]],
            seq!["rust-lang/rust"@, "rust-lang/rfcs"@],
        ),
        plain_query(
            "Prioritization Requested"@,
            seq![seq!["T-libs"@, "I-prioritize"@], seq!["T-libs-api"@, "I-prioritize"@]],
            seq!["rust-lang/rust"@, "rust-lang/rfcs"@],
        ),
        plain_query(
            "Nominated"@,
            seq![seq!["T-libs"@, "I-nominated"@]],
            seq!["rust-lang/rust"@, "rust-lang/rfcs"@, "rust-lang/libs-team"@],
        ),
        QueryView {
            excluded_labels: seq![seq!["beta-accepted"@]],
            state: State::Any,
            ..plain_query(
                "Backports"@,
                seq![
                    seq!["T-libs"@, "stable-nominated"@],
                    seq!["T-libs-api"@, "stable-nominated"@],
                    seq!["T-libs"@, "beta-nominated"@],
                    seq!["T-libs-api"@, "beta-nominated"@],
                ],
                seq!["rust-lang/rust"@, "rust-lang/rfcs"@],
            )
        },
        QueryView {
            excluded_labels: seq![seq!["T-libs-api"@, "I-nominated"@]],
            ..plain_query(
                "Regressions"@,
                seq![
                    seq!["T-libs"@, "regression-untriaged"@],
                    seq!["T-libs-api"@, "regression-untriaged"@],
                    seq!["T-libs"@, "regression-from-stable-to-stable"@],
                    seq!["T-libs-api"@, "regression-from-stable-to-stable"@],
                    seq!["T-libs"@, "regression-from-stable-to-beta"@],
                    seq!["T-libs-api"@, "regression-from-stable-to-beta"@],
                    seq!["T-libs"@, "regression-from-stable-to-nightly"@],
                    seq!["T-libs-api"@, "regression-from-stable-to-nightly"@],
                ],
                seq!["rust-lang/rust"@, "rust-lang/rfcs"@],
            )
        },
    ]
}

/// The queries of the agenda of the error handling project group. The last
/// one has no label group, so its section always reads `None`.
pub open spec fn error_handling_pg_queries() -> Seq<QueryView> {
    seq![
        plain_query(
            "Nominated"@,
            seq![seq!["PG-error-handling"@, "I-nominated"@]],
            seq!["rust-lang/rust"@, "rust-lang/project-error-handling"@],
        ),
        plain_query(
            "PG Error Handling"@,
            seq![seq!["PG-error-handling"@]],
            seq!["rust-lang/rust"@, "rust-lang/project-error-handling"@],
        ),
        plain_query(
            "Area Error Handling"@,
            seq![seq!["A-error-handling"@]],
            seq!["rust-lang/rust"@],
        ),
        plain_query(
            "PG Error Handling"@,
            Seq::empty(),
            seq!["rust-lang/project-error-handling"@],
        ),
    ]
}

impl Variant {
    /// The label of the team whose proposals the agenda lists.
    pub open spec fn team_label_text(self) -> Seq<char> {
        match self {
            Variant::LibsApi => "T-libs-api"@,
            Variant::Libs => "T-libs"@,
            Variant::ErrorHandlingPG => "PG-error-handling"@,
        }
    }

    /// The start of the title line, up to the date.
    pub open spec fn title_text(self) -> Seq<char> {
        match self {
            Variant::LibsApi => "# Libs-API Meeting "@,
            Variant::Libs => "# Libs Meeting "@,
            Variant::ErrorHandlingPG => "# Project Group Error Handling Meeting "@,
        }
    }

    /// What follows the date: the rest of the head of the document, up to the
    /// heading of the triage part.
    pub open spec fn preamble_text(self) -> Seq<char> {
        match self {
            Variant::LibsApi =>
                "\n\n###### tags: `Libs Meetings` `Minutes`\n\n**Meeting Link**: https://meet.jit.si/rust-libs-meeting-crxoz2at8hiccp7b3ixf89qgxfymlbwr\n**Attendees**: ...\n\n## Agenda\n\n- [Open action items](https://hackmd.io/ovrbJj6CRduRgSA0Wzg2zg)\n- Triage\n- Anything else?\n\n## Triage\n\n"@,
            Variant::Libs =>
                "\n\n###### tags: `Libs Meetings` `Minutes`\n\n**Meeting Link**: https://meet.jit.si/rust-libs-meeting-ujepnbwg2lzqgt6wvrndwimi\n**Attendees**: ...\n\n## Agenda\n\n- Triage\n    - [Open Action Items](https://hackmd.io/Uehlc0qUQfWfvY1swYWRgQ)\n    - Critical Issues\n    - MCPs\n- Anything else?\n\n## Triage\n\n"@,
            Variant::ErrorHandlingPG =>
                "\n\n###### tags: `Error Handling` `Minutes`\n\n**Attendees**: ...\n\n## Agenda Items\n\n- [Open action items](https://hackmd.io/@rust-libs/Hyj7kRSld)\n- Triage\n- Individual Status Updates\n\n## Triage\n\n"@,
        }
    }

    /// The end of the document: the actions and the line that says what
    /// generated it.
    pub open spec fn closing_text(self) -> Seq<char> {
        match self {
            Variant::LibsApi =>
                "## Actions\n\n- [ ] Reply to all issues/PRs discussed in this meeting, or add them to the [open action items](https://hackmd.io/ovrbJj6CRduRgSA0Wzg2zg).\n\n_Generated by [fully-automatic-rust-libs-team-triage-meeting-agenda-generator](https://github.com/rust-lang/libs-team/tree/main/tools/agenda-generator)_\n"@,
            Variant::Libs =>
                "## Actions\n\n- [ ] Reply to all issues/PRs discussed in this meeting, or add them to the [open action items](https://hackmd.io/Uehlc0qUQfWfvY1swYWRgQ).\n\n_Generated by [fully-automatic-rust-libs-team-triage-meeting-agenda-generator](https://github.com/rust-lang/libs-team/tree/main/tools/agenda-generator)_\n"@,
            Variant::ErrorHandlingPG =>
                "## Actions\n\n- [ ] Reply to all issues/PRs discussed in this meeting, or add them to the [open action items](https://hackmd.io/UrERZvi5RwyxfGvo-RtC6g).\n\n_Generated by [fully-automatic-rust-libs-team-triage-meeting-agenda-generator](https://github.com/rust-lang/libs-team/tree/main/tools/agenda-generator)_\n"@,
        }
    }

    /// The queries of the triage part, in their order.
    pub open spec fn query_views(self) -> Seq<QueryView> {
        match self {
            Variant::LibsApi => libs_api_queries(),
            Variant::Libs => libs_queries(),
            Variant::ErrorHandlingPG => error_handling_pg_queries(),
        }
    }

    /// The label of the team whose proposals the agenda lists.
    pub fn team_label(&self) -> (r: &'static str)
        ensures
            r@ == self.team_label_text(),
    {
        match self {
            Variant::LibsApi => "T-libs-api",
            Variant::Libs => "T-libs",
            Variant::ErrorHandlingPG => "PG-error-handling",
        }
    }

    /// The start of the title line, up to the date.
    pub fn title(&self) -> (r: &'static str)
        ensures
            r@ == self.title_text(),
    {
        match self {
            Variant::LibsApi => "# Libs-API Meeting ",
            Variant::Libs => "# Libs Meeting ",
            Variant::ErrorHandlingPG => "# Project Group Error Handling Meeting ",
        }
    }

    /// What follows the date in the head of the document.
    pub fn preamble(&self) -> (r: &'static str)
        ensures
            r@ == self.preamble_text(),
    {
        match self {
            Variant::LibsApi =>
                "\n\n###### tags: `Libs Meetings` `Minutes`\n\n**Meeting Link**: https://meet.jit.si/rust-libs-meeting-crxoz2at8hiccp7b3ixf89qgxfymlbwr\n**Attendees**: ...\n\n## Agenda\n\n- [Open action items](https://hackmd.io/ovrbJj6CRduRgSA0Wzg2zg)\n- Triage\n- Anything else?\n\n## Triage\n\n",
            Variant::Libs =>
                "\n\n###### tags: `Libs Meetings` `Minutes`\n\n**Meeting Link**: https://meet.jit.si/rust-libs-meeting-ujepnbwg2lzqgt6wvrndwimi\n**Attendees**: ...\n\n## Agenda\n\n- Triage\n    - [Open Action Items](https://hackmd.io/Uehlc0qUQfWfvY1swYWRgQ)\n    - Critical Issues\n    - MCPs\n- Anything else?\n\n## Triage\n\n",
            Variant::ErrorHandlingPG =>
                "\n\n###### tags: `Error Handling` `Minutes`\n\n**Attendees**: ...\n\n## Agenda Items\n\n- [Open action items](https://hackmd.io/@rust-libs/Hyj7kRSld)\n- Triage\n- Individual Status Updates\n\n## Triage\n\n",
        }
    }

    /// The end of the document.
    pub fn closing(&self) -> (r: &'static str)
        ensures
            r@ == self.closing_text(),
    {
        match self {
            Variant::LibsApi =>
                "## Actions\n\n- [ ] Reply to all issues/PRs discussed in this meeting, or add them to the [open action items](https://hackmd.io/ovrbJj6CRduRgSA0Wzg2zg).\n\n_Generated by [fully-automatic-rust-libs-team-triage-meeting-agenda-generator](https://github.com/rust-lang/libs-team/tree/main/tools/agenda-generator)_\n",
            Variant::Libs =>
                "## Actions\n\n- [ ] Reply to all issues/PRs discussed in this meeting, or add them to the [open action items](https://hackmd.io/Uehlc0qUQfWfvY1swYWRgQ).\n\n_Generated by [fully-automatic-rust-libs-team-triage-meeting-agenda-generator](https://github.com/rust-lang/libs-team/tree/main/tools/agenda-generator)_\n",
            Variant::ErrorHandlingPG =>
                "## Actions\n\n- [ ] Reply to all issues/PRs discussed in this meeting, or add them to the [open action items](https://hackmd.io/UrERZvi5RwyxfGvo-RtC6g).\n\n_Generated by [fully-automatic-rust-libs-team-triage-meeting-agenda-generator](https://github.com/rust-lang/libs-team/tree/main/tools/agenda-generator)_\n",
        }
    }

    /// The queries of the triage part, in their order. A caller makes the
    /// requests of each ([`GithubQuery::endpoints`]) and hands the answers to
    /// the function that writes the agenda.
    pub fn queries(&self) -> (r: Vec<GithubQuery>)
        ensures
            views(r@) == self.query_views(),
    {
        match self {
            Variant::LibsApi => libs_api_query_list(),
            Variant::Libs => libs_query_list(),
            Variant::ErrorHandlingPG => error_handling_pg_query_list(),
        }
    }
}

fn libs_api_query_list() -> (r: Vec<GithubQuery>)
    ensures
        views(r@) == libs_api_queries(),
{
    let ghost want = libs_api_queries();
    let mut r: Vec<GithubQuery> = Vec::new();
    let q = GithubQuery::new("Nominated")
        .labels(&["T-libs-api", "I-nominated"])
        .repo("rust-lang/libs-team")
        .repo("rust-lang/rust")
        .repo("rust-lang/rfcs");
    assert(q@.labels =~~= want[0].labels);
    assert(q@.excluded_labels =~~= want[0].excluded_labels);
    assert(q@.repos =~~= want[0].repos);
    assert(q@ == want[0]);
    r.push(q);
    let q = GithubQuery::new("Waiting on team")
        .labels(&["T-libs-api", "S-waiting-on-team"])
        .repo("rust-lang/rust")
        .repo("rust-lang/rfcs");
    assert(q@.labels =~~= want[1].labels);
    assert(q@.excluded_labels =~~= want[1].excluded_labels);
    assert(q@.repos =~~= want[1].repos);
    assert(q@ == want[1]);
    r.push(q);
    let q = GithubQuery::new("Needs decision")
        .labels(&["T-libs-api", "I-needs-decision"])
        .repo("rust-lang/rust");
    assert(q@.labels =~~= want[2].labels);
    assert(q@.excluded_labels =~~= want[2].excluded_labels);
    assert(q@.repos =~~= want[2].repos);
    assert(q@ == want[2]);
    r.push(q);
    let q = GithubQuery::new("Stalled Tracking Issues")
        .labels(&["T-libs-api", "C-tracking-issue"])
        .repo("rust-lang/rust")
        .sort(Sort::LeastRecentlyUpdated)
        .take(5);
    assert(q@.labels =~~= want[3].labels);
    assert(q@.excluded_labels =~~= want[3].excluded_labels);
    assert(q@.repos =~~= want[3].repos);
    assert(q@ == want[3]);
    r.push(q);
    assert(views(r@) =~= want);
    r
}

fn libs_query_list() -> (r: Vec<GithubQuery>)
    ensures
        views(r@) == libs_queries(),
{
    let ghost want = libs_queries();
    let mut r: Vec<GithubQuery> = Vec::new();
    let q = GithubQuery::new("Critical")
        .labels(&["T-libs", "P-critical"])
        .labels(&["T-libs-api", "P-critical"])
        .repo("rust-lang/rust")
        .repo("rust-lang/rfcs");
    assert(q@.labels =~~= want[0].labels);
    assert(q@.excluded_labels =~~= want[0].excluded_labels);
    assert(q@.repos =~~= want[0].repos);
    assert(q@ == want[0]);
    r.push(q);
    let q = GithubQuery::new("Prioritization Requested")
        .labels(&["T-libs", "I-prioritize"])
        .labels(&["T-libs-api", "I-prioritize"])
        .repo("rust-lang/rust")
        .repo("rust-lang/rfcs");
    assert(q@.labels =~~= want[1].labels);
    assert(q@.excluded_labels =~~= want[1].excluded_labels);
    assert(q@.repos =~~= want[1].repos);
    assert(q@ == want[1]);
    r.push(q);
    let q = GithubQuery::new("Nominated")
        .labels(&["T-libs", "I-nominated"])
        .repo("rust-lang/rust")
        .repo("rust-lang/rfcs")
        .repo("rust-lang/libs-team");
    assert(q@.labels =~~= want[2].labels);
    assert(q@.excluded_labels =~~= want[2].excluded_labels);
    assert(q@.repos =~~= want[2].repos);
    assert(q@ == want[2]);
    r.push(q);
    let q = GithubQuery::new("Backports")
        .labels(&["T-libs", "stable-nominated"])
        .labels(&["T-libs-api", "stable-nominated"])
        .labels(&["T-libs", "beta-nominated"])
        .labels(&["T-libs-api", "beta-nominated"])
        .exclude_labels(&["beta-accepted"])
        .state(State::Any)
        .repo("rust-lang/rust")
        .repo("rust-lang/rfcs");
    assert(q@.labels =~~= want[3].labels);
    assert(q@.excluded_labels =~~= want[3].excluded_labels);
    assert(q@.repos =~~= want[3].repos);
    assert(q@ == want[3]);
    r.push(q);
    let q = GithubQuery::new("Regressions")
        .labels(&["T-libs", "regression-untriaged"])
        .labels(&["T-libs-api", "regression-untriaged"])
        .labels(&["T-libs", "regression-from-stable-to-stable"])
        .labels(&["T-libs-api", "regression-from-stable-to-stable"])
        .labels(&["T-libs", "regression-from-stable-to-beta"])
        .labels(&["T-libs-api", "regression-from-stable-to-beta"])
        .labels(&["T-libs", "regression-from-stable-to-nightly"])
        .labels(&["T-libs-api", "regression-from-stable-to-nightly"])
        .exclude_labels(&["T-libs-api", "I-nominated"])
        .repo("rust-lang/rust")
        .repo("rust-lang/rfcs");
    assert(q@.labels =~~= want[4].labels);
    assert(q@.excluded_labels =~~= want[4].excluded_labels);
    assert(q@.repos =~~= want[4].repos);
    assert(q@ == want[4]);
    r.push(q);
    assert(views(r@) =~= want);
    r
}

fn error_handling_pg_query_list() -> (r: Vec<GithubQuery>)
    ensures
        views(r@) == error_handling_pg_queries(),
{
    let ghost want = error_handling_pg_queries();
    let mut r: Vec<GithubQuery> = Vec::new();
    let q = GithubQuery::new("Nominated")
        .labels(&["PG-error-handling", "I-nominated"])
        .repo("rust-lang/rust")
        .repo("rust-lang/project-error-handling");
    assert(q@.labels =~~= want[0].labels);
    assert(q@.excluded_labels =~~= want[0].excluded_labels);
    assert(q@.repos =~~= want[0].repos);
    assert(q@ == want[0]);
    r.push(q);
    let q = GithubQuery::new("PG Error Handling")
        .labels(&["PG-error-handling"])
        .repo("rust-lang/rust")
        .repo("rust-lang/project-error-handling");
    assert(q@.labels =~~= want[1].labels);
    assert(q@.excluded_labels =~~= want[1].excluded_labels);
    assert(q@.repos =~~= want[1].repos);
    assert(q@ == want[1]);
    r.push(q);
    let q = GithubQuery::new("Area Error Handling")
        .labels(&["A-error-handling"])
        .repo("rust-lang/rust");
    assert(q@.labels =~~= want[2].labels);
    assert(q@.excluded_labels =~~= want[2].excluded_labels);
    assert(q@.repos =~~= want[2].repos);
    assert(q@ == want[2]);
    r.push(q);
    let q = GithubQuery::new("PG Error Handling").repo("rust-lang/project-error-handling");
    assert(q@.labels =~~= want[3].labels);
    assert(q@.excluded_labels =~~= want[3].excluded_labels);
    assert(q@.repos =~~= want[3].repos);
    assert(q@ == want[3]);
    r.push(q);
    assert(views(r@) =~= want);
    r
}

/// The answers to the requests of several queries, as sequences of issues.
pub open spec fn all_batches(fetched: Seq<Vec<Vec<Issue>>>) -> Seq<Seq<Seq<IssueView>>> {
    Seq::new(fetched.len(), |i: int| batches(fetched[i]@))
}

/// Whether there is one list of answers for each query, with one answer for
/// each request of the query.
pub open spec fn answers_fit(queries: Seq<QueryView>, fetched: Seq<Seq<Seq<IssueView>>>) -> bool {
    &&& fetched.len() == queries.len()
    &&& forall|k: int|
        0 <= k < queries.len() ==> (#[trigger] fetched[k]).len() == request_count(queries[k])
}

/// The URLs that were seen when the first `k` queries have been written.
pub open spec fn seen_after(
    seen: Set<Seq<char>>,
    fetched: Seq<Seq<Seq<IssueView>>>,
    k: int,
) -> Set<Seq<char>>
    decreases k,
{
    if k <= 0 {
        seen
    } else {
        seen_through(seen_after(seen, fetched, k - 1), fetched[k - 1], fetched[k - 1].len() as int)
    }
}

/// The sections of the first `k` queries, one after the other. Each query
/// starts from what the queries before it have seen.
pub open spec fn sections(
    queries: Seq<QueryView>,
    seen: Set<Seq<char>>,
    fetched: Seq<Seq<Seq<IssueView>>>,
    k: int,
) -> Seq<char>
    decreases k,
{
    if k <= 0 {
        Seq::empty()
    } else {
        sections(queries, seen, fetched, k - 1) + section_text(
            queries[k - 1],
            seen_after(seen, fetched, k - 1),
            fetched[k - 1],
        )
    }
}

/// The whole document of an agenda: the head with the date, the section on
/// the proposals `ps`, the sections of the queries, and the end.
pub open spec fn agenda_text(
    variant: Variant,
    date: Seq<char>,
    ps: Seq<ProposalView>,
    seen: Set<Seq<char>>,
    fetched: Seq<Seq<Seq<IssueView>>>,
) -> Seq<char> {
    variant.title_text() + date + variant.preamble_text() + crate::fcp::fcps_text(
        variant.team_label_text(),
        ps,
    ) + sections(variant.query_views(), seen, fetched, fetched.len() as int)
        + variant.closing_text()
}

/// What the first `k` queries of a document list, query by query: the
/// listings that their sections show.
pub open spec fn document_listings(
    queries: Seq<QueryView>,
    seen: Set<Seq<char>>,
    fetched: Seq<Seq<Seq<IssueView>>>,
    k: int,
) -> Seq<ListingView>
    decreases k,
{
    if k <= 0 {
        Seq::empty()
    } else {
        document_listings(queries, seen, fetched, k - 1) + listings(
            queries[k - 1],
            seen_after(seen, fetched, k - 1),
            fetched[k - 1],
            fetched[k - 1].len() as int,
        )
    }
}

/// No issue is listed twice in one document: among all the issues that the
/// sections of the queries list no URL occurs twice, none was seen before
/// the first query, and all are seen after the last. Writing queries forgets
/// nothing of what was seen.
pub proof fn lemma_document_lists_once(
    queries: Seq<QueryView>,
    seen: Set<Seq<char>>,
    fetched: Seq<Seq<Seq<IssueView>>>,
    k: int,
)
    requires
        0 <= k <= fetched.len(),
    ensures
        listed_urls(document_listings(queries, seen, fetched, k)).no_duplicates(),
        forall|u: Seq<char>| #[trigger]
            listed_urls(document_listings(queries, seen, fetched, k)).contains(u)
                ==> !seen.contains(u) && seen_after(seen, fetched, k).contains(u),
        forall|u: Seq<char>|
            seen.contains(u) ==> #[trigger] seen_after(seen, fetched, k).contains(u),
    decreases k,
{
    if k > 0 {
        lemma_document_lists_once(queries, seen, fetched, k - 1);
        let before = seen_after(seen, fetched, k - 1);
        let answers = fetched[k - 1];
        let n = answers.len() as int;
        let earlier = document_listings(queries, seen, fetched, k - 1);
        let added = listings(queries[k - 1], before, answers, n);
        lemma_listed_once(queries[k - 1], before, answers, n);
        lemma_seen_through_grows(before, answers, n);
        lemma_listed_urls_concat(earlier, added);
        let old_urls = listed_urls(earlier);
        let new_urls = listed_urls(added);
        let all = listed_urls(document_listings(queries, seen, fetched, k));
        assert(all == old_urls + new_urls);
        assert forall|i: int, j: int| 0 <= i < all.len() && 0 <= j < all.len() && i
            != j implies all[i] != all[j] by {
            let (a, b) = if i < j {
                (i, j)
            } else {
                (j, i)
            };
            if b < old_urls.len() {
                assert(old_urls[a] != old_urls[b]);
            } else if a < old_urls.len() {
                assert(old_urls.contains(old_urls[a]));
                assert(new_urls.contains(new_urls[b - old_urls.len()]));
            } else {
                assert(new_urls[a - old_urls.len()] != new_urls[b - old_urls.len()]);
            }
        }
        assert forall|u: Seq<char>| #[trigger] all.contains(u) implies !seen.contains(u)
            && seen_after(seen, fetched, k).contains(u) by {
            let m = choose|m: int| 0 <= m < all.len() && all[m] == u;
            if m < old_urls.len() {
                assert(old_urls[m] == u);
                assert(old_urls.contains(u));
                assert(before.contains(u));
            } else {
                assert(new_urls[m - old_urls.len()] == u);
                assert(new_urls.contains(u));
                if seen.contains(u) {
                    assert(before.contains(u));
                }
            }
        }
        assert forall|u: Seq<char>| seen.contains(u) implies #[trigger] seen_after(
            seen,
            fetched,
            k,
        ).contains(u) by {
            assert(before.contains(u));
        }
    }
}

} // verus!
