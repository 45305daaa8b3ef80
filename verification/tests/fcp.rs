use agenda_generator::fcp::{
    append_fcps, append_summary, find_number, is_longer_ago, keep_labelled, keep_stalled, select,
    FIVE_DAYS, FOUR_WEEKS,
};
use agenda_generator::{Generator, Proposal, Review, Timestamp};

const DAY: i64 = 86_400;

fn at(secs: i64) -> Timestamp {
    Timestamp { secs, nanos: 0 }
}

fn review(login: &str, checked_off: bool) -> Review {
    Review { login: login.to_string(), checked_off }
}

fn proposal(repo: &str, number: i32, disposition: &str, title: &str, reviews: Vec<Review>) -> Proposal {
    Proposal {
        disposition: disposition.to_string(),
        repository: repo.to_string(),
        number,
        title: title.to_string(),
        labels: vec!["T-libs-api".to_string(), "proposed-final-comment-period".to_string()],
        status_comment_id: number + 1000,
        status_created_at: at(0),
        status_updated_at: at(0),
        reviews,
    }
}

fn numbers(ps: &[Proposal]) -> Vec<i32> {
    ps.iter().map(|p| p.number).collect()
}

fn details(repo: &str, count: usize) -> String {
    format!(
        "<details><summary><a href=\"https://github.com/{}/issues?q=is%3Aopen+label%3AT-libs-api+label%3Aproposed-final-comment-period\">{} <code>{}</code> FCPs</a></summary>\n\n",
        repo, count, repo
    )
}

#[test]
fn no_proposals() {
    let mut out = String::new();
    append_fcps(&mut out, "T-libs", &Vec::new());
    assert_eq!(out, "### FCPs\n\n0 open T-libs FCPs:\n<p></p>\n\n\n\n");
}

#[test]
fn two_repositories_and_a_summary_of_who_is_waited_for() {
    let proposals = vec![
        proposal("R1", 10, "merge", "Title one", vec![review("alice", true)]),
        proposal("R2", 12, "merge", "Title three", vec![review("bob", false)]),
        proposal(
            "R1",
            11,
            "close",
            "Title two",
            vec![review("bob", false), review("carol", false), review("alice", true)],
        ),
    ];
    let mut generator = Generator::default();
    generator.fcps_at("T-libs-api".to_string(), proposals, at(0));
    let expected = format!(
        "### FCPs\n\n3 open T-libs-api FCPs:\n{}  \
- [[merge 10](https://github.com/R1/issues/10#issuecomment-1010)] *Title one* - (0 checkboxes left)\n  \
- [[close 11](https://github.com/R1/issues/11#issuecomment-1011)] *Title two* - (2 checkboxes left)\n\
</details>\n{}  \
- [[merge 12](https://github.com/R2/issues/12#issuecomment-1012)] *Title three* - (1 checkboxes left)\n\
</details>\n<p></p>\n\n\
[bob (2)](https://rfcbot.rs/fcp/bob), [carol (1)](https://rfcbot.rs/fcp/carol)\n\n",
        details("R1", 2),
        details("R2", 1)
    );
    assert_eq!(generator.agenda(), expected);
    assert_eq!(generator.agenda().matches("<details>").count(), 2);
    assert!(!generator.agenda().contains("alice"));
}

#[test]
fn repositories_come_in_ascending_order() {
    let proposals = vec![
        proposal("rust-lang/rust", 1, "merge", "a", vec![]),
        proposal("rust-lang/rfcs", 2, "merge", "b", vec![]),
        proposal("rust-lang/libs-team", 3, "merge", "c", vec![]),
        proposal("rust-lang/rfcs", 4, "merge", "d", vec![]),
    ];
    let mut out = String::new();
    append_fcps(&mut out, "T-libs-api", &proposals);
    let libs_team = out.find("<code>rust-lang/libs-team</code>").unwrap();
    let rfcs = out.find("<code>rust-lang/rfcs</code>").unwrap();
    let rust = out.find("<code>rust-lang/rust</code>").unwrap();
    assert!(libs_team < rfcs && rfcs < rust);
    assert_eq!(out.matches("<details>").count(), 3);
    let two = out.find("[[merge 2]").unwrap();
    let four = out.find("[[merge 4]").unwrap();
    assert!(rfcs < two && two < four && four < rust);
}

#[test]
fn the_summary_is_by_ascending_login_whatever_the_order_given() {
    let proposals = vec![
        proposal("R", 1, "merge", "a", vec![review("zoe", false), review("Yann", false)]),
        proposal("R", 2, "merge", "b", vec![review("adam", false), review("zoe", false), review("mia", true)]),
        proposal("R", 3, "merge", "c", vec![review("zoe", false), review("adam", false)]),
    ];
    let mut out = String::new();
    append_fcps(&mut out, "T-libs", &proposals);
    assert!(out.ends_with(
        "<p></p>\n\n[Yann (1)](https://rfcbot.rs/fcp/Yann), [adam (2)](https://rfcbot.rs/fcp/adam), [zoe (3)](https://rfcbot.rs/fcp/zoe)\n\n"
    ));
}

#[test]
fn titles_are_escaped_and_numbers_may_be_negative() {
    let mut p = proposal("o/r", -5, "postpone", " a_b [c] ", vec![]);
    p.status_comment_id = -7;
    let mut out = String::new();
    append_fcps(&mut out, "T", &vec![p]);
    assert!(out.contains(
        "  - [[postpone -5](https://github.com/o/r/issues/-5#issuecomment--7)] * a\\_b \\[c\\] * - (0 checkboxes left)\n"
    ));
}

#[test]
fn only_proposals_with_the_label_are_listed() {
    let mut other = proposal("R", 2, "merge", "b", vec![review("bob", false)]);
    other.labels = vec!["T-libs".to_string()];
    let mut none = proposal("S", 3, "merge", "c", vec![review("carol", false)]);
    none.labels = Vec::new();
    let proposals = vec![proposal("R", 1, "merge", "a", vec![review("alice", false)]), other, none];
    let kept = keep_labelled(proposals, "T-libs-api");
    assert_eq!(numbers(&kept), vec![1]);

    let mut other = proposal("R", 2, "merge", "b", vec![review("bob", false)]);
    other.labels = vec!["T-libs".to_string()];
    let proposals = vec![proposal("R", 1, "merge", "a", vec![review("alice", false)]), other];
    let mut generator = Generator::default();
    generator.fcps("T-libs-api".to_string(), proposals);
    let expected = format!(
        "### FCPs\n\n1 open T-libs-api FCPs:\n{}  \
- [[merge 1](https://github.com/R/issues/1#issuecomment-1001)] *a* - (1 checkboxes left)\n\
</details>\n<p></p>\n\n[alice (1)](https://rfcbot.rs/fcp/alice)\n\n",
        details("R", 1)
    );
    assert_eq!(generator.agenda(), expected);
}

#[test]
fn durations() {
    assert_eq!(FOUR_WEEKS, 4 * 7 * DAY);
    assert_eq!(FIVE_DAYS, 5 * DAY);
    assert!(is_longer_ago(at(11), at(0), 10));
    assert!(!is_longer_ago(at(10), at(0), 10));
    assert!(is_longer_ago(Timestamp { secs: 10, nanos: 1 }, at(0), 10));
    assert!(!is_longer_ago(Timestamp { secs: 10, nanos: 1 }, Timestamp { secs: 0, nanos: 1 }, 10));
    assert!(!is_longer_ago(Timestamp { secs: 10, nanos: 1 }, Timestamp { secs: 0, nanos: 2 }, 10));
    assert!(is_longer_ago(Timestamp { secs: 11, nanos: 0 }, Timestamp { secs: 0, nanos: 999_999_999 }, 10));
    assert!(!is_longer_ago(at(0), at(100), 10));
    assert!(is_longer_ago(at(i64::MAX), at(i64::MIN), i64::MAX));
    assert!(!is_longer_ago(at(i64::MIN), at(i64::MAX), i64::MIN));
}

fn aged(number: i32, created: i64, updated: i64, waiting: bool) -> Proposal {
    let mut p = proposal("R", number, "merge", "t", vec![]);
    p.status_created_at = at(created);
    p.status_updated_at = at(updated);
    if waiting {
        p.labels.push("S-waiting-on-author".to_string());
    }
    p
}

#[test]
fn stalled_proposals() {
    let now = at(100 * DAY);
    let proposals = vec![
        aged(1, 100 * DAY - FOUR_WEEKS - 1, 100 * DAY - FIVE_DAYS - 1, false),
        aged(2, 100 * DAY - FOUR_WEEKS, 100 * DAY - FIVE_DAYS - 1, false),
        aged(3, 100 * DAY - FOUR_WEEKS - 1, 100 * DAY - FIVE_DAYS, false),
        aged(4, 0, 0, true),
        aged(5, 0, 0, false),
        aged(6, 99 * DAY, 99 * DAY, false),
    ];
    let kept = keep_stalled(proposals, now);
    assert_eq!(numbers(&kept), vec![1, 5]);
}

#[test]
fn the_stale_filter_is_off_unless_asked_for() {
    let now = at(100 * DAY);
    let make = || vec![aged(1, 0, 0, false), aged(2, 99 * DAY, 99 * DAY, false), aged(3, 0, 0, true)];
    assert_eq!(numbers(&select(make(), "T-libs-api", false, now)), vec![1, 2, 3]);
    assert_eq!(numbers(&select(make(), "T-libs-api", true, now)), vec![1]);
    assert_eq!(numbers(&select(make(), "T-libs", true, now)), Vec::<i32>::new());

    let mut plain = Generator::default();
    plain.fcps_at("T-libs-api".to_string(), make(), now);
    assert!(plain.agenda().starts_with("### FCPs\n\n3 open T-libs-api FCPs:\n"));

    let mut stale = Generator::default().stale_fcps_only(true);
    stale.fcps_at("T-libs-api".to_string(), make(), now);
    assert!(stale.agenda().starts_with("### FCPs\n\n1 open T-libs-api FCPs:\n"));

    let mut off_again = Generator::default().stale_fcps_only(true).stale_fcps_only(false);
    off_again.fcps_at("T-libs-api".to_string(), make(), now);
    assert!(off_again.agenda().starts_with("### FCPs\n\n3 open T-libs-api FCPs:\n"));
}

#[test]
fn the_stale_filter_goes_by_the_clock() {
    let make = || vec![aged(1, 0, 0, false), aged(2, i64::MAX, i64::MAX, false), aged(3, 0, 0, true)];
    let mut stale = Generator::default().stale_fcps_only(true);
    stale.fcps("T-libs-api".to_string(), make());
    assert!(stale.agenda().starts_with("### FCPs\n\n1 open T-libs-api FCPs:\n"));
    assert!(stale.agenda().contains("[[merge 1]"));
}

fn pairs(items: &[(&str, usize)]) -> Vec<(String, usize)> {
    items.iter().map(|(login, n)| (login.to_string(), *n)).collect()
}

#[test]
fn the_summary_does_not_depend_on_the_order_of_the_pairs() {
    let expected = "[amy (3)](https://rfcbot.rs/fcp/amy), [bo (1)](https://rfcbot.rs/fcp/bo), [cy (2)](https://rfcbot.rs/fcp/cy)";
    for order in [
        [("amy", 3), ("bo", 1), ("cy", 2)],
        [("cy", 2), ("amy", 3), ("bo", 1)],
        [("bo", 1), ("cy", 2), ("amy", 3)],
        [("cy", 2), ("bo", 1), ("amy", 3)],
    ] {
        let mut out = String::new();
        append_summary(&mut out, &pairs(&order));
        assert_eq!(out, expected);
    }
}

#[test]
fn the_summary_of_no_pairs_is_empty() {
    let mut out = String::from("x");
    append_summary(&mut out, &Vec::new());
    assert_eq!(out, "x");
    let mut out = String::new();
    append_summary(&mut out, &pairs(&[("solo", 12)]));
    assert_eq!(out, "[solo (12)](https://rfcbot.rs/fcp/solo)");
}

#[test]
fn the_first_pair_of_a_login_counts() {
    let all = pairs(&[("amy", 3), ("bo", 1), ("amy", 7)]);
    assert_eq!(find_number(&all, "amy"), 3);
    assert_eq!(find_number(&all, "bo"), 1);
    assert_eq!(find_number(&all, "cy"), 0);
    assert_eq!(find_number(&Vec::new(), "amy"), 0);
    let mut out = String::new();
    append_summary(&mut out, &all);
    assert_eq!(out, "[amy (3)](https://rfcbot.rs/fcp/amy), [bo (1)](https://rfcbot.rs/fcp/bo)");
}
