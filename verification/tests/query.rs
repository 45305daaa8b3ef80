use agenda_generator::issue::{
    append_issue_entries, append_issue_entry, apply_limit, carries_group, drop_excluded, excludes,
};
use agenda_generator::{Collector, Generator, GithubQuery, Issue, Sort, State, Variant};

fn issue(number: u32, labels: &[&str]) -> Issue {
    Issue {
        number,
        html_url: format!("https://github.com/rust-lang/rust/issues/{}", number),
        title: format!("Issue {}", number),
        labels: labels.iter().map(|l| l.to_string()).collect(),
    }
}

fn numbers(issues: &[Issue]) -> Vec<u32> {
    issues.iter().map(|i| i.number).collect()
}

#[test]
fn sort_strings() {
    assert_eq!(Sort::Newest.api_str(), "&sort=created&direction=desc");
    assert_eq!(Sort::Oldest.api_str(), "&sort=created&direction=asc");
    assert_eq!(Sort::MostCommented.api_str(), "&sort=comments&direction=desc");
    assert_eq!(Sort::LeastCommented.api_str(), "&sort=comments&direction=asc");
    assert_eq!(Sort::MostRecentlyUpdated.api_str(), "&sort=updated&direction=desc");
    assert_eq!(Sort::LeastRecentlyUpdated.api_str(), "&sort=updated&direction=asc");
    assert_eq!(Sort::Newest.web_ui_str(), "+sort:created-desc");
    assert_eq!(Sort::Oldest.web_ui_str(), "+sort:created-asc");
    assert_eq!(Sort::MostCommented.web_ui_str(), "+sort:comments-desc");
    assert_eq!(Sort::LeastCommented.web_ui_str(), "+sort:comments-asc");
    assert_eq!(Sort::MostRecentlyUpdated.web_ui_str(), "+sort:updated-desc");
    assert_eq!(Sort::LeastRecentlyUpdated.web_ui_str(), "+sort:updated-asc");
}

#[test]
fn state_strings() {
    assert_eq!(State::Open.api_str(), "&state=open");
    assert_eq!(State::Closed.api_str(), "&state=closed");
    assert_eq!(State::Any.api_str(), "&state=all");
    assert_eq!(State::Open.web_ui_str(), "+is:open");
    assert_eq!(State::Closed.web_ui_str(), "+is:closed");
    assert_eq!(State::Any.web_ui_str(), "");
}

#[test]
fn a_new_query_is_empty_and_open() {
    let q = GithubQuery::new("Nominated");
    assert_eq!(q.name, "Nominated");
    assert!(q.labels.is_empty());
    assert!(q.excluded_labels.is_empty());
    assert!(q.repos.is_empty());
    assert!(q.sort.is_none());
    assert!(q.count.is_none());
    assert!(matches!(q.state, State::Open));
}

#[test]
fn the_builders_add_in_order() {
    let q = GithubQuery::new("Q")
        .labels(&["a", "b"])
        .repo("r1")
        .labels(&["c"])
        .exclude_labels(&["x", "y"])
        .repo("r2")
        .sort(Sort::Oldest)
        .take(3)
        .state(State::Closed);
    assert_eq!(q.name, "Q");
    assert_eq!(q.labels, vec![&["a", "b"][..], &["c"][..]]);
    assert_eq!(q.excluded_labels, vec![&["x", "y"][..]]);
    assert_eq!(q.repos, vec!["r1", "r2"]);
    assert!(matches!(q.sort, Some(Sort::Oldest)));
    assert_eq!(q.count, Some(3));
    assert!(matches!(q.state, State::Closed));
}

#[test]
fn endpoints_go_repository_by_repository() {
    let q = GithubQuery::new("Q")
        .labels(&["T-libs", "P-critical"])
        .labels(&["T-libs-api", "P-critical"])
        .repo("rust-lang/rust")
        .repo("rust-lang/rfcs");
    assert_eq!(
        q.endpoints(),
        vec![
            "repos/rust-lang/rust/issues?labels=T-libs,P-critical&state=open",
            "repos/rust-lang/rust/issues?labels=T-libs-api,P-critical&state=open",
            "repos/rust-lang/rfcs/issues?labels=T-libs,P-critical&state=open",
            "repos/rust-lang/rfcs/issues?labels=T-libs-api,P-critical&state=open",
        ]
    );
}

#[test]
fn endpoints_carry_state_and_order() {
    let q = GithubQuery::new("Q")
        .labels(&["C-tracking-issue"])
        .repo("rust-lang/rust")
        .state(State::Any)
        .sort(Sort::LeastRecentlyUpdated);
    assert_eq!(
        q.endpoints(),
        vec!["repos/rust-lang/rust/issues?labels=C-tracking-issue&state=all&sort=updated&direction=asc"]
    );
    let closed = GithubQuery::new("Q").labels(&["a"]).repo("o/r").state(State::Closed);
    assert_eq!(closed.endpoints(), vec!["repos/o/r/issues?labels=a&state=closed"]);
}

#[test]
fn no_label_groups_means_no_requests() {
    let q = GithubQuery::new("PG Error Handling").repo("rust-lang/project-error-handling");
    assert_eq!(q.endpoints(), Vec::<String>::new());
    let none = GithubQuery::new("Q").labels(&["a"]);
    assert_eq!(none.endpoints(), Vec::<String>::new());
}

#[test]
fn execute_without_label_groups_lists_nothing() {
    let q = GithubQuery::new("PG Error Handling").repo("a/b").repo("c/d").take(3);
    let mut seen = Collector::new();
    let listings = q.execute(&mut seen, Vec::new());
    assert!(listings.is_empty());
}

#[test]
fn write_without_label_groups_says_none() {
    let q = GithubQuery::new("PG Error Handling").repo("rust-lang/project-error-handling");
    let mut generator = Generator::default();
    q.write(&mut generator, Vec::new());
    assert_eq!(generator.agenda(), "### PG Error Handling\n\nNone\n\n");
}

#[test]
fn write_with_empty_answers_says_none() {
    let q = GithubQuery::new("Nominated").labels(&["a"]).repo("o/r").repo("o/s");
    let mut generator = Generator::default();
    q.write(&mut generator, vec![Vec::new(), Vec::new()]);
    assert_eq!(generator.agenda(), "### Nominated\n\nNone\n\n");
}

#[test]
fn execute_names_repository_and_group_of_each_request() {
    let q = GithubQuery::new("Q").labels(&["a"]).labels(&["b", "c"]).repo("o/r").repo("o/s");
    let mut seen = Collector::new();
    let listings = q.execute(
        &mut seen,
        vec![vec![issue(1, &["a"])], vec![], vec![issue(2, &["a"]), issue(3, &["a"])], vec![issue(4, &["b", "c"])]],
    );
    assert_eq!(listings.len(), 3);
    assert_eq!(listings[0].repo, "o/r");
    assert_eq!(listings[0].labels, &["a"]);
    assert_eq!(numbers(&listings[0].issues), vec![1]);
    assert_eq!(listings[1].repo, "o/s");
    assert_eq!(listings[1].labels, &["a"]);
    assert_eq!(numbers(&listings[1].issues), vec![2, 3]);
    assert_eq!(listings[2].repo, "o/s");
    assert_eq!(listings[2].labels, &["b", "c"]);
    assert_eq!(numbers(&listings[2].issues), vec![4]);
}

#[test]
fn execute_lists_no_issue_twice() {
    let q = GithubQuery::new("Q").labels(&["a"]).labels(&["b"]).repo("o/r");
    let mut seen = Collector::new();
    let listings = q.execute(
        &mut seen,
        vec![vec![issue(1, &["a", "b"]), issue(2, &["a"])], vec![issue(1, &["a", "b"]), issue(3, &["b"])]],
    );
    assert_eq!(listings.len(), 2);
    assert_eq!(numbers(&listings[0].issues), vec![1, 2]);
    assert_eq!(numbers(&listings[1].issues), vec![3]);
    assert!(seen.contains("https://github.com/rust-lang/rust/issues/1"));
    assert!(seen.contains("https://github.com/rust-lang/rust/issues/3"));
}

#[test]
fn execute_skips_a_request_whose_issues_were_all_seen() {
    let q = GithubQuery::new("Q").labels(&["a"]).repo("o/r").repo("o/s");
    let mut seen = Collector::new();
    let listings = q.execute(&mut seen, vec![vec![issue(1, &["a"])], vec![issue(1, &["a"])]]);
    assert_eq!(listings.len(), 1);
    assert_eq!(listings[0].repo, "o/r");
}

#[test]
fn excluded_issues_are_dropped_whichever_group_fetched_them() {
    let q = GithubQuery::new("Regressions")
        .labels(&["T-libs", "regression-untriaged"])
        .labels(&["T-libs-api", "regression-untriaged"])
        .exclude_labels(&["T-libs-api", "I-nominated"])
        .repo("rust-lang/rust");
    let mut seen = Collector::new();
    let listings = q.execute(
        &mut seen,
        vec![
            vec![
                issue(1, &["T-libs", "regression-untriaged"]),
                issue(2, &["T-libs", "regression-untriaged", "I-nominated", "T-libs-api"]),
                issue(3, &["T-libs", "regression-untriaged", "I-nominated"]),
            ],
            vec![
                issue(4, &["T-libs-api", "regression-untriaged", "I-nominated"]),
                issue(5, &["T-libs-api", "regression-untriaged"]),
            ],
        ],
    );
    assert_eq!(listings.len(), 2);
    assert_eq!(numbers(&listings[0].issues), vec![1, 3]);
    assert_eq!(numbers(&listings[1].issues), vec![5]);
}

#[test]
fn an_excluded_issue_counts_as_seen() {
    let first = GithubQuery::new("A").labels(&["a"]).exclude_labels(&["x"]).repo("o/r");
    let second = GithubQuery::new("B").labels(&["a"]).repo("o/r");
    let mut seen = Collector::new();
    let one = first.execute(&mut seen, vec![vec![issue(1, &["a", "x"])]]);
    assert!(one.is_empty());
    let two = second.execute(&mut seen, vec![vec![issue(1, &["a", "x"]), issue(2, &["a"])]]);
    assert_eq!(two.len(), 1);
    assert_eq!(numbers(&two[0].issues), vec![2]);
}

#[test]
fn dropping_excluded_issues_twice_changes_nothing_more() {
    let excluded: Vec<&'static [&'static str]> = vec![&["beta-accepted"], &["T-libs-api", "I-nominated"]];
    let issues = vec![
        issue(1, &["beta-nominated"]),
        issue(2, &["beta-nominated", "beta-accepted"]),
        issue(3, &["I-nominated", "x", "T-libs-api"]),
        issue(4, &["I-nominated"]),
        issue(5, &[]),
    ];
    let once = drop_excluded(issues, &excluded);
    assert_eq!(numbers(&once), vec![1, 4, 5]);
    let twice = drop_excluded(once, &excluded);
    assert_eq!(numbers(&twice), vec![1, 4, 5]);
}

#[test]
fn exclusion_asks_for_every_label_of_a_group() {
    let labels: Vec<String> = vec!["a".to_string(), "b".to_string()];
    assert!(carries_group(&labels, &["a"]));
    assert!(carries_group(&labels, &["b", "a"]));
    assert!(!carries_group(&labels, &["a", "c"]));
    assert!(carries_group(&labels, &[]));
    let groups: Vec<&'static [&'static str]> = vec![&["a", "c"], &["b"]];
    assert!(excludes(&groups, &labels));
    let other: Vec<&'static [&'static str]> = vec![&["a", "c"], &["d"]];
    assert!(!excludes(&other, &labels));
    assert!(!excludes(&Vec::new(), &labels));
}

#[test]
fn an_empty_excluded_group_drops_every_issue() {
    let excluded: Vec<&'static [&'static str]> = vec![&[]];
    let left = drop_excluded(vec![issue(1, &["a"]), issue(2, &[])], &excluded);
    assert!(left.is_empty());
}

#[test]
fn limit_keeps_the_first() {
    let issues = || (1..=8).map(|n| issue(n, &[])).collect::<Vec<_>>();
    assert_eq!(numbers(&apply_limit(issues(), Some(5))), vec![1, 2, 3, 4, 5]);
    assert_eq!(numbers(&apply_limit(issues(), Some(8))), vec![1, 2, 3, 4, 5, 6, 7, 8]);
    assert_eq!(numbers(&apply_limit(issues(), Some(20))), vec![1, 2, 3, 4, 5, 6, 7, 8]);
    assert_eq!(numbers(&apply_limit(issues(), Some(0))), Vec::<u32>::new());
    assert_eq!(numbers(&apply_limit(issues(), None)), vec![1, 2, 3, 4, 5, 6, 7, 8]);
}

#[test]
fn limit_counts_after_the_other_filters() {
    let q = GithubQuery::new("Q").labels(&["a"]).exclude_labels(&["x"]).repo("o/r").take(2);
    let mut seen = Collector::new();
    seen.insert("https://github.com/rust-lang/rust/issues/1".to_string());
    let listings = q.execute(
        &mut seen,
        vec![vec![issue(1, &["a"]), issue(2, &["a", "x"]), issue(3, &["a"]), issue(4, &["a"]), issue(5, &["a"])]],
    );
    assert_eq!(listings.len(), 1);
    assert_eq!(numbers(&listings[0].issues), vec![3, 4]);
}

#[test]
fn a_limit_of_zero_lists_nothing() {
    let q = GithubQuery::new("Q").labels(&["a"]).repo("o/r").take(0);
    let mut generator = Generator::default();
    q.write(&mut generator, vec![vec![issue(1, &["a"])]]);
    assert_eq!(generator.agenda(), "### Q\n\nNone\n\n");
}

#[test]
fn stalled_tracking_issues_lists_five_of_eight() {
    let queries = Variant::LibsApi.queries();
    let stalled = &queries[3];
    assert_eq!(stalled.name, "Stalled Tracking Issues");
    let mut generator = Generator::default();
    let fetched = (1..=8).map(|n| issue(n, &["T-libs-api", "C-tracking-issue"])).collect();
    stalled.write(&mut generator, vec![fetched]);
    let expected = "### Stalled Tracking Issues\n\n\
- [5 `rust-lang/rust` `T-libs-api` `C-tracking-issue` items](https://github.com/rust-lang/rust/issues?q=label:T-libs-api+label:C-tracking-issue+is:open+sort:updated-asc)\n  \
- [[5](https://github.com/rust-lang/rust/issues/5)] *Issue 5*\n  \
- [[4](https://github.com/rust-lang/rust/issues/4)] *Issue 4*\n  \
- [[3](https://github.com/rust-lang/rust/issues/3)] *Issue 3*\n  \
- [[2](https://github.com/rust-lang/rust/issues/2)] *Issue 2*\n  \
- [[1](https://github.com/rust-lang/rust/issues/1)] *Issue 1*\n\n";
    assert_eq!(generator.agenda(), expected);
}

#[test]
fn issue_entry_shows_priority_tags_and_trimmed_escaped_title() {
    let it = Issue {
        number: 42,
        html_url: "https://github.com/rust-lang/rust/issues/42".to_string(),
        title: "  Add `foo_bar` [WIP] ".to_string(),
        labels: vec!["T-libs-api".to_string(), "P-high".to_string(), "p-low".to_string(), "P-".to_string()],
    };
    let mut out = String::new();
    append_issue_entry(&mut out, &it);
    assert_eq!(
        out,
        "  - [[42](https://github.com/rust-lang/rust/issues/42)] `P-high` `P-` *Add \\`foo\\_bar\\` \\[WIP\\]*\n"
    );
}

#[test]
fn issue_entry_asks_about_a_finished_comment_period() {
    let it = issue(7, &["disposition-merge", "finished-final-comment-period", "T-libs"]);
    let mut out = String::from("x");
    append_issue_entry(&mut out, &it);
    assert_eq!(
        out,
        "x  - [[7](https://github.com/rust-lang/rust/issues/7)] *Issue 7*\n    FCP finished. Should be merged?\n"
    );
    let closing = issue(8, &["finished-final-comment-period", "disposition-close", "disposition-postpone"]);
    let mut out = String::new();
    append_issue_entry(&mut out, &closing);
    assert_eq!(
        out,
        "  - [[8](https://github.com/rust-lang/rust/issues/8)] *Issue 8*\n    FCP finished. Should be closed? Should be postponed?\n"
    );
    let bare = issue(9, &["finished-final-comment-period"]);
    let mut out = String::new();
    append_issue_entry(&mut out, &bare);
    assert_eq!(out, "  - [[9](https://github.com/rust-lang/rust/issues/9)] *Issue 9*\n    FCP finished.\n");
    let unfinished = issue(10, &["disposition-merge"]);
    let mut out = String::new();
    append_issue_entry(&mut out, &unfinished);
    assert_eq!(out, "  - [[10](https://github.com/rust-lang/rust/issues/10)] *Issue 10*\n");
}

#[test]
fn issues_are_written_last_first() {
    let mut generator = Generator::default();
    generator.write_issues(&vec![issue(1, &[]), issue(2, &[]), issue(3, &[])]);
    assert_eq!(
        generator.agenda(),
        "  - [[3](https://github.com/rust-lang/rust/issues/3)] *Issue 3*\n  \
- [[2](https://github.com/rust-lang/rust/issues/2)] *Issue 2*\n  \
- [[1](https://github.com/rust-lang/rust/issues/1)] *Issue 1*\n"
    );
    let mut out = String::new();
    append_issue_entries(&mut out, &Vec::new());
    assert_eq!(out, "");
}

#[test]
fn a_section_lists_each_request_under_its_own_line() {
    let q = GithubQuery::new("Backports")
        .labels(&["T-libs", "stable-nominated"])
        .labels(&["T-libs", "beta-nominated"])
        .exclude_labels(&["beta-accepted"])
        .state(State::Any)
        .repo("rust-lang/rust");
    let mut generator = Generator::default();
    q.write(
        &mut generator,
        vec![
            vec![issue(1, &["T-libs", "stable-nominated"])],
            vec![issue(2, &["T-libs", "beta-nominated", "beta-accepted"]), issue(3, &["T-libs", "beta-nominated"])],
        ],
    );
    let expected = "### Backports\n\n\
- [1 `rust-lang/rust` `T-libs` `stable-nominated` items](https://github.com/rust-lang/rust/issues?q=label:T-libs+label:stable-nominated)\n  \
- [[1](https://github.com/rust-lang/rust/issues/1)] *Issue 1*\n\
- [1 `rust-lang/rust` `T-libs` `beta-nominated` items](https://github.com/rust-lang/rust/issues?q=label:T-libs+label:beta-nominated)\n  \
- [[3](https://github.com/rust-lang/rust/issues/3)] *Issue 3*\n\n";
    assert_eq!(generator.agenda(), expected);
}

#[test]
fn a_section_of_one_label_has_a_link_without_plus() {
    let q = GithubQuery::new("Area Error Handling").labels(&["A-error-handling"]).repo("rust-lang/rust").sort(Sort::MostCommented);
    let mut generator = Generator::default();
    q.write(&mut generator, vec![vec![issue(1, &[])]]);
    let expected = "### Area Error Handling\n\n\
- [1 `rust-lang/rust` `A-error-handling` items](https://github.com/rust-lang/rust/issues?q=label:A-error-handling+is:open+sort:comments-desc)\n  \
- [[1](https://github.com/rust-lang/rust/issues/1)] *Issue 1*\n\n";
    assert_eq!(generator.agenda(), expected);
}

#[test]
fn a_later_query_does_not_list_what_an_earlier_one_went_through() {
    let first = GithubQuery::new("First").labels(&["a"]).repo("o/r");
    let second = GithubQuery::new("Second").labels(&["b"]).repo("o/r");
    let mut generator = Generator::default();
    first.write(&mut generator, vec![vec![issue(1, &["a", "b"])]]);
    second.write(&mut generator, vec![vec![issue(1, &["a", "b"]), issue(2, &["b"])]]);
    let expected = "### First\n\n\
- [1 `o/r` `a` items](https://github.com/o/r/issues?q=label:a+is:open)\n  \
- [[1](https://github.com/rust-lang/rust/issues/1)] *Issue 1*\n\n\
### Second\n\n\
- [1 `o/r` `b` items](https://github.com/o/r/issues?q=label:b+is:open)\n  \
- [[2](https://github.com/rust-lang/rust/issues/2)] *Issue 2*\n\n";
    assert_eq!(generator.agenda(), expected);
}

#[test]
fn request_and_link_ask_for_the_same_order() {
    let all = [
        Sort::Newest,
        Sort::Oldest,
        Sort::MostCommented,
        Sort::LeastCommented,
        Sort::MostRecentlyUpdated,
        Sort::LeastRecentlyUpdated,
    ];
    for sort in all {
        let api = sort.api_str();
        let rest = api.strip_prefix("&sort=").unwrap();
        let (field, direction) = rest.split_once("&direction=").unwrap();
        assert_eq!(sort.web_ui_str(), format!("+sort:{}-{}", field, direction));
        assert!(field == "created" || field == "comments" || field == "updated");
        assert!(direction == "asc" || direction == "desc");
    }
    let q = GithubQuery::new("Q").labels(&["a"]).repo("o/r").sort(Sort::MostCommented);
    assert_eq!(q.endpoints(), vec!["repos/o/r/issues?labels=a&state=open&sort=comments&direction=desc"]);
    let mut generator = Generator::default();
    q.write(&mut generator, vec![vec![issue(1, &[])]]);
    assert!(generator.agenda().contains("(https://github.com/o/r/issues?q=label:a+is:open+sort:comments-desc)"));
    let q = GithubQuery::new("Q").labels(&["a"]).repo("o/r").sort(Sort::LeastCommented);
    assert_eq!(q.endpoints(), vec!["repos/o/r/issues?labels=a&state=open&sort=comments&direction=asc"]);
}

#[test]
fn an_issue_is_listed_under_the_first_request_that_returned_it() {
    let q = GithubQuery::new("Q")
        .labels(&["a"])
        .labels(&["b"])
        .exclude_labels(&["x"])
        .repo("o/r")
        .repo("o/s");
    let mut seen = Collector::new();
    let listings = q.execute(
        &mut seen,
        vec![
            vec![issue(1, &["a"])],
            vec![issue(2, &["b", "x"]), issue(3, &["a", "b"]), issue(1, &["a"])],
            vec![issue(3, &["a", "b"]), issue(4, &["a"])],
            vec![issue(4, &["a"]), issue(3, &["a", "b"])],
        ],
    );
    assert_eq!(listings.len(), 3);
    assert_eq!((listings[0].repo, listings[0].labels), ("o/r", &["a"][..]));
    assert_eq!(numbers(&listings[0].issues), vec![1]);
    assert_eq!((listings[1].repo, listings[1].labels), ("o/r", &["b"][..]));
    assert_eq!(numbers(&listings[1].issues), vec![3]);
    assert_eq!((listings[2].repo, listings[2].labels), ("o/s", &["a"][..]));
    assert_eq!(numbers(&listings[2].issues), vec![4]);
}
