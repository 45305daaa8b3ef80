//! The proposals that are in their final comment period (FCP), and the
//! section of the agenda that lists them.

use crate::order::{lemma_sorted_distinct, sort_distinct, sorted_distinct};
use crate::outside::{count_each, has_key};
use crate::text::{
    append_int, append_joined_texts, append_nat, contains_text, decimal, escape, escaped, joined,
    lemma_filter_next, lemma_flatten_next, lemma_views_push, occurrences, same_text, views,
};
use vstd::prelude::*;
use vstd::string::*;

verus! {

/// A moment: the seconds since the start of 1970 (UTC), and the nanoseconds
/// within the second.
#[derive(Clone, Copy, Debug)]
pub struct Timestamp {
    pub secs: i64,
    pub nanos: u32,
}

impl Timestamp {
    /// The moment in nanoseconds since the start of 1970.
    pub open spec fn nanoseconds(self) -> int {
        self.secs * 1_000_000_000 + self.nanos
    }
}

/// One team member who is to sign a proposal off, and whether they have.
#[derive(Debug)]
pub struct Review {
    pub login: String,
    pub checked_off: bool,
}

/// What a [`Review`] holds.
pub struct ReviewView {
    pub login: Seq<char>,
    pub checked_off: bool,
}

impl View for Review {
    type V = ReviewView;

    open spec fn view(&self) -> ReviewView {
        ReviewView { login: self.login@, checked_off: self.checked_off }
    }
}

/// A proposal as the proposal service reports it: what is proposed, the
/// issue it is about, the comment that tracks it, and who is to sign it off.
#[derive(Debug)]
pub struct Proposal {
    pub disposition: String,
    pub repository: String,
    pub number: i32,
    pub title: String,
    pub labels: Vec<String>,
    pub status_comment_id: i32,
    pub status_created_at: Timestamp,
    pub status_updated_at: Timestamp,
    pub reviews: Vec<Review>,
}

/// What a [`Proposal`] holds.
pub struct ProposalView {
    pub disposition: Seq<char>,
    pub repository: Seq<char>,
    pub number: int,
    pub title: Seq<char>,
    pub labels: Seq<Seq<char>>,
    pub status_comment_id: int,
    pub status_created_at: Timestamp,
    pub status_updated_at: Timestamp,
    pub reviews: Seq<ReviewView>,
}

impl View for Proposal {
    type V = ProposalView;

    open spec fn view(&self) -> ProposalView {
        ProposalView {
            disposition: self.disposition@,
            repository: self.repository@,
            number: self.number as int,
            title: self.title@,
            labels: views(self.labels@),
            status_comment_id: self.status_comment_id as int,
            status_created_at: self.status_created_at,
            status_updated_at: self.status_updated_at,
            reviews: views(self.reviews@),
        }
    }
}

/// Four weeks, in seconds.
pub const FOUR_WEEKS: i64 = 2_419_200;

/// Five days, in seconds.
pub const FIVE_DAYS: i64 = 432_000;

/// Whether the proposal's issue carries `label`.
pub open spec fn has_label(label: Seq<char>) -> spec_fn(ProposalView) -> bool {
    |p: ProposalView| p.labels.contains(label)
}

/// Whether the proposal is in the repository `repo`.
pub open spec fn in_repo(repo: Seq<char>) -> spec_fn(ProposalView) -> bool {
    |p: ProposalView| p.repository == repo
}

/// Whether more than `seconds` seconds lie between `then` and `now`.
pub open spec fn longer_ago(now: Timestamp, then: Timestamp, seconds: int) -> bool {
    now.nanoseconds() - then.nanoseconds() > seconds * 1_000_000_000
}

/// Whether the proposal has stalled: it does not wait on its author, its
/// tracking comment was made more than four weeks before `now`, and it was
/// last changed more than five days before `now`.
pub open spec fn is_stalled(now: Timestamp) -> spec_fn(ProposalView) -> bool {
    |p: ProposalView|
        !p.labels.contains("S-waiting-on-author"@) && longer_ago(
            now,
            p.status_created_at,
            FOUR_WEEKS as int,
        ) && longer_ago(now, p.status_updated_at, FIVE_DAYS as int)
}

/// The proposals that the section lists: those whose issue carries `label`,
/// and of these, where `stale_only` is set, those that have stalled.
pub open spec fn selected(
    ps: Seq<ProposalView>,
    label: Seq<char>,
    stale_only: bool,
    now: Timestamp,
) -> Seq<ProposalView> {
    if stale_only {
        ps.filter(has_label(label)).filter(is_stalled(now))
    } else {
        ps.filter(has_label(label))
    }
}

/// The logins of the members who have not checked their box, in order.
pub open spec fn pending_of(reviews: Seq<ReviewView>) -> Seq<Seq<char>>
    decreases reviews.len(),
{
    if reviews.len() == 0 {
        Seq::empty()
    } else if reviews.last().checked_off {
        pending_of(reviews.drop_last())
    } else {
        pending_of(reviews.drop_last()).push(reviews.last().login)
    }
}

/// The logins of all outstanding sign-offs of the proposals, in order; a
/// member is there once for each proposal that waits for them.
pub open spec fn pending(ps: Seq<ProposalView>) -> Seq<Seq<char>>
    decreases ps.len(),
{
    if ps.len() == 0 {
        Seq::empty()
    } else {
        pending(ps.drop_last()) + pending_of(ps.last().reviews)
    }
}

/// The repositories of the proposals, in order.
pub open spec fn repositories(ps: Seq<ProposalView>) -> Seq<Seq<char>> {
    Seq::new(ps.len(), |i: int| ps[i].repository)
}

/// The link to the comment that tracks the proposal.
pub open spec fn comment_url(p: ProposalView) -> Seq<char> {
    "https://github.com/"@ + p.repository + "/issues/"@ + decimal(p.number) + "#issuecomment-"@
        + decimal(p.status_comment_id)
}

/// The line of one proposal: what is proposed, the issue's number with the
/// link to the tracking comment, the escaped title, and the number of
/// members who have not checked their box.
pub open spec fn proposal_line(p: ProposalView) -> Seq<char> {
    "  - [["@ + p.disposition + " "@ + decimal(p.number) + "]("@ + comment_url(p) + ")] *"@
        + escaped(p.title) + "*"@ + " - ("@ + decimal(pending_of(p.reviews).len() as int)
        + " checkboxes left)\n"@
}

/// For each proposal, in order, its line where it is in `repo`, and nothing
/// where it is not.
pub open spec fn repo_lines(ps: Seq<ProposalView>, repo: Seq<char>) -> Seq<Seq<char>> {
    Seq::new(
        ps.len(),
        |i: int|
            if ps[i].repository == repo {
                proposal_line(ps[i])
            } else {
                Seq::empty()
            },
    )
}

/// The block of one repository: a summary with the number of its proposals
/// and its name, then the proposals in their order.
pub open spec fn repo_block(ps: Seq<ProposalView>, repo: Seq<char>) -> Seq<char> {
    "<details><summary><a href=\"https://github.com/"@ + repo
        + "/issues?q=is%3Aopen+label%3AT-libs-api+label%3Aproposed-final-comment-period\">"@
        + decimal(ps.filter(in_repo(repo)).len() as int) + " <code>"@ + repo
        + "</code> FCPs</a></summary>\n"@ + "\n"@ + repo_lines(ps, repo).flatten()
        + "</details>\n"@
}

/// The blocks of the repositories of the proposals, the repositories in
/// ascending order.
pub open spec fn repo_blocks(ps: Seq<ProposalView>) -> Seq<Seq<char>> {
    let repos = sorted_distinct(repositories(ps));
    Seq::new(repos.len(), |g: int| repo_block(ps, repos[g]))
}

/// The entry of one member in the summary: the login, the number of
/// proposals that wait for them, and the link to the member's page.
pub open spec fn reviewer_entry(login: Seq<char>, outstanding: nat) -> Seq<char> {
    "["@ + login + " ("@ + decimal(outstanding as int) + ")](https://rfcbot.rs/fcp/"@ + login
        + ")"@
}

/// The entries of the members for whom a proposal waits, each once, by
/// ascending login.
pub open spec fn reviewer_entries(ps: Seq<ProposalView>) -> Seq<Seq<char>> {
    let logins = sorted_distinct(pending(ps));
    Seq::new(
        logins.len(),
        |i: int| reviewer_entry(logins[i], occurrences(pending(ps), logins[i])),
    )
}

/// The section on the proposals `ps` of the team with the label `label`: the
/// heading, the number of proposals, a block for each repository, and the
/// summary of the members.
pub open spec fn fcps_text(label: Seq<char>, ps: Seq<ProposalView>) -> Seq<char> {
    "### FCPs\n"@ + "\n"@ + decimal(ps.len() as int) + " open "@ + label + " FCPs:\n"@
        + repo_blocks(ps).flatten() + "<p></p>\n\n"@ + joined(reviewer_entries(ps), ", "@) + "\n"@
        + "\n"@
}

/// Whether more than `seconds` seconds lie between `then` and `now`.
pub fn is_longer_ago(now: Timestamp, then: Timestamp, seconds: i64) -> (r: bool)
    ensures
        r == longer_ago(now, then, seconds as int),
{
    let elapsed: i128 = (now.secs as i128 - then.secs as i128) * 1_000_000_000 + (now.nanos as i128
        - then.nanos as i128);
    elapsed > (seconds as i128) * 1_000_000_000
}

/// Keeps the proposals whose issue carries `label`.
pub fn keep_labelled(proposals: Vec<Proposal>, label: &str) -> (r: Vec<Proposal>)
    ensures
        views(r@) == views(proposals@).filter(has_label(label@)),
{
    let ghost all = views(proposals@);
    let mut r: Vec<Proposal> = Vec::new();
    proof {
        reveal(Seq::filter);
        assert(views(r@) =~= all.take(0).filter(has_label(label@)));
    }
    for p in it: proposals
        invariant
            it.seq() == proposals@,
            all == views(proposals@),
            views(r@) == all.take(it.index() as int).filter(has_label(label@)),
    {
        let ghost before = r@;
        proof {
            lemma_filter_next(all, has_label(label@), it.index() as int);
        }
        if contains_text(&p.labels, label) {
            r.push(p);
            proof {
                lemma_views_push(before, p);
            }
        }
    }
    assert(all.take(all.len() as int) =~= all);
    r
}

/// Keeps the proposals that have stalled at `now`.
pub fn keep_stalled(proposals: Vec<Proposal>, now: Timestamp) -> (r: Vec<Proposal>)
    ensures
        views(r@) == views(proposals@).filter(is_stalled(now)),
{
    let ghost all = views(proposals@);
    let mut r: Vec<Proposal> = Vec::new();
    proof {
        reveal(Seq::filter);
        assert(views(r@) =~= all.take(0).filter(is_stalled(now)));
    }
    for p in it: proposals
        invariant
            it.seq() == proposals@,
            all == views(proposals@),
            views(r@) == all.take(it.index() as int).filter(is_stalled(now)),
    {
        let ghost before = r@;
        proof {
            lemma_filter_next(all, is_stalled(now), it.index() as int);
        }
        if !contains_text(&p.labels, "S-waiting-on-author") && is_longer_ago(
            now,
            p.status_created_at,
            FOUR_WEEKS,
        ) && is_longer_ago(now, p.status_updated_at, FIVE_DAYS) {
            r.push(p);
            proof {
                lemma_views_push(before, p);
            }
        }
    }
    assert(all.take(all.len() as int) =~= all);
    r
}

/// The proposals that the section lists: those whose issue carries `label`,
/// and of these, where `stale_only` is set, those that have stalled at `now`.
pub fn select(proposals: Vec<Proposal>, label: &str, stale_only: bool, now: Timestamp) -> (r: Vec<
    Proposal,
>)
    ensures
        views(r@) == selected(views(proposals@), label@, stale_only, now),
{
    let labelled = keep_labelled(proposals, label);
    if stale_only {
        keep_stalled(labelled, now)
    } else {
        labelled
    }
}

fn pending_logins_of(reviews: &Vec<Review>) -> (r: Vec<String>)
    ensures
        views(r@) == pending_of(views(reviews@)),
{
    let mut r: Vec<String> = Vec::new();
    let mut i: usize = 0;
    assert(views(r@) =~= pending_of(views(reviews@).take(0)));
    while i < reviews.len()
        invariant
            i <= reviews.len(),
            views(r@) == pending_of(views(reviews@).take(i as int)),
        decreases reviews.len() - i,
    {
        let ghost before = r@;
        assert(views(reviews@).take(i + 1).drop_last() =~= views(reviews@).take(i as int));
        if !reviews[i].checked_off {
            let login = reviews[i].login.clone();
            r.push(login);
            proof {
                lemma_views_push(before, login);
            }
        }
        i += 1;
    }
    assert(views(reviews@).take(reviews.len() as int) =~= views(reviews@));
    r
}

fn pending_logins(ps: &Vec<Proposal>) -> (r: Vec<String>)
    ensures
        views(r@) == pending(views(ps@)),
{
    let mut r: Vec<String> = Vec::new();
    let mut i: usize = 0;
    assert(views(r@) =~= pending(views(ps@).take(0)));
    while i < ps.len()
        invariant
            i <= ps.len(),
            views(r@) == pending(views(ps@).take(i as int)),
        decreases ps.len() - i,
    {
        let ghost before = views(r@);
        assert(views(ps@).take(i + 1).drop_last() =~= views(ps@).take(i as int));
        let mut more = pending_logins_of(&ps[i].reviews);
        let ghost added = views(more@);
        r.append(&mut more);
        assert(views(r@) =~= before + added);
        i += 1;
    }
    assert(views(ps@).take(ps.len() as int) =~= views(ps@));
    r
}

fn repository_names(ps: &Vec<Proposal>) -> (r: Vec<String>)
    ensures
        views(r@) == repositories(views(ps@)),
{
    let mut r: Vec<String> = Vec::new();
    let mut i: usize = 0;
    while i < ps.len()
        invariant
            i <= ps.len(),
            views(r@) == repositories(views(ps@)).take(i as int),
        decreases ps.len() - i,
    {
        let ghost before = r@;
        let name = ps[i].repository.clone();
        r.push(name);
        proof {
            lemma_views_push(before, name);
            assert(views(before).push(name@) =~= repositories(views(ps@)).take(i + 1));
        }
        i += 1;
    }
    assert(repositories(views(ps@)).take(ps.len() as int) =~= repositories(views(ps@)));
    r
}

fn count_in_repo(ps: &Vec<Proposal>, repo: &str) -> (n: usize)
    ensures
        n == views(ps@).filter(in_repo(repo@)).len(),
{
    let mut n: usize = 0;
    let mut i: usize = 0;
    proof {
        reveal(Seq::filter);
        assert(views(ps@).take(0).filter(in_repo(repo@)).len() == 0);
    }
    while i < ps.len()
        invariant
            i <= ps.len(),
            n <= i,
            n == views(ps@).take(i as int).filter(in_repo(repo@)).len(),
        decreases ps.len() - i,
    {
        proof {
            lemma_filter_next(views(ps@), in_repo(repo@), i as int);
        }
        if same_text(ps[i].repository.as_str(), repo) {
            n += 1;
        }
        i += 1;
    }
    assert(views(ps@).take(ps.len() as int) =~= views(ps@));
    n
}

fn append_proposal_line(out: &mut String, p: &Proposal)
    ensures
        final(out)@ == old(out)@ + proposal_line(p@),
{
    out.append("  - [[");
    out.append(p.disposition.as_str());
    out.append(" ");
    append_int(out, p.number as i64);
    out.append("](");
    let ghost head = out@;
    out.append("https://github.com/");
    out.append(p.repository.as_str());
    out.append("/issues/");
    append_int(out, p.number as i64);
    out.append("#issuecomment-");
    append_int(out, p.status_comment_id as i64);
    assert(out@ =~= head + comment_url(p@));
    out.append(")] *");
    let title = escape(p.title.as_str());
    out.append(title.as_str());
    out.append("*");
    out.append(" - (");
    let needed = pending_logins_of(&p.reviews);
    append_nat(out, needed.len() as u64);
    out.append(" checkboxes left)\n");
    assert(out@ =~= old(out)@ + proposal_line(p@));
}

fn append_repo_block(out: &mut String, ps: &Vec<Proposal>, repo: &str)
    ensures
        final(out)@ == old(out)@ + repo_block(views(ps@), repo@),
{
    out.append("<details><summary><a href=\"https://github.com/");
    out.append(repo);
    out.append(
        "/issues?q=is%3Aopen+label%3AT-libs-api+label%3Aproposed-final-comment-period\">",
    );
    append_nat(out, count_in_repo(ps, repo) as u64);
    out.append(" <code>");
    out.append(repo);
    out.append("</code> FCPs</a></summary>\n");
    out.append("\n");
    let ghost head = out@;
    let ghost parts = repo_lines(views(ps@), repo@);
    let mut i: usize = 0;
    while i < ps.len()
        invariant
            i <= ps.len(),
            parts == repo_lines(views(ps@), repo@),
            out@ == head + parts.take(i as int).flatten(),
        decreases ps.len() - i,
    {
        let ghost before = out@;
        if same_text(ps[i].repository.as_str(), repo) {
            append_proposal_line(out, &ps[i]);
        }
        proof {
            lemma_flatten_next(parts, i as int);
            assert(out@ =~= before + parts[i as int]);
        }
        i += 1;
    }
    assert(parts.take(ps.len() as int) =~= parts);
    out.append("</details>\n");
    assert(out@ =~= old(out)@ + repo_block(views(ps@), repo@));
}

fn append_repo_blocks(out: &mut String, ps: &Vec<Proposal>)
    ensures
        final(out)@ == old(out)@ + repo_blocks(views(ps@)).flatten(),
{
    let names = repository_names(ps);
    let repos = sort_distinct(&names);
    let ghost parts = repo_blocks(views(ps@));
    let mut g: usize = 0;
    while g < repos.len()
        invariant
            g <= repos.len(),
            views(repos@) == sorted_distinct(repositories(views(ps@))),
            parts == repo_blocks(views(ps@)),
            out@ == old(out)@ + parts.take(g as int).flatten(),
        decreases repos.len() - g,
    {
        let ghost before = out@;
        assert(views(repos@)[g as int] == repos@[g as int]@);
        append_repo_block(out, ps, repos[g].as_str());
        proof {
            lemma_flatten_next(parts, g as int);
            assert(out@ =~= before + parts[g as int]);
        }
        g += 1;
    }
    assert(parts.take(repos.len() as int) =~= parts);
}

/// The pairs of login and number as plain values.
pub open spec fn pair_views(pairs: Seq<(String, usize)>) -> Seq<(Seq<char>, nat)> {
    Seq::new(pairs.len(), |i: int| (pairs[i].0@, pairs[i].1 as nat))
}

/// The logins of the pairs, in order.
pub open spec fn logins_of(pairs: Seq<(Seq<char>, nat)>) -> Seq<Seq<char>> {
    Seq::new(pairs.len(), |i: int| pairs[i].0)
}

/// The number of the first pair with the login `login`; zero where no pair
/// has it.
pub open spec fn number_for(pairs: Seq<(Seq<char>, nat)>, login: Seq<char>) -> nat
    decreases pairs.len(),
{
    if pairs.len() == 0 {
        0
    } else if pairs[0].0 == login {
        pairs[0].1
    } else {
        number_for(pairs.skip(1), login)
    }
}

/// The entries of the summary for the given pairs of login and number: one
/// for each login, by ascending login, in whatever order the pairs come.
pub open spec fn summary_entries(pairs: Seq<(Seq<char>, nat)>) -> Seq<Seq<char>> {
    let logins = sorted_distinct(logins_of(pairs));
    Seq::new(logins.len(), |i: int| reviewer_entry(logins[i], number_for(pairs, logins[i])))
}

/// The number of the first pair with the login `login`; zero where no pair
/// has it.
pub fn find_number(pairs: &Vec<(String, usize)>, login: &str) -> (n: usize)
    ensures
        n == number_for(pair_views(pairs@), login@),
{
    let ghost all = pair_views(pairs@);
    let mut i: usize = 0;
    assert(all.skip(0) =~= all);
    while i < pairs.len()
        invariant
            i <= pairs.len(),
            all == pair_views(pairs@),
            number_for(all, login@) == number_for(all.skip(i as int), login@),
        decreases pairs.len() - i,
    {
        assert(all.skip(i as int)[0] == all[i as int]);
        if same_text(pairs[i].0.as_str(), login) {
            return pairs[i].1;
        }
        assert(all.skip(i as int).skip(1) =~= all.skip(i + 1));
        i += 1;
    }
    0
}

/// Appends the summary for the given pairs of login and number: the entries
/// by ascending login, with a comma and a blank between two of them.
pub fn append_summary(out: &mut String, pairs: &Vec<(String, usize)>)
    ensures
        final(out)@ == old(out)@ + joined(summary_entries(pair_views(pairs@)), ", "@),
{
    let ghost all = pair_views(pairs@);
    let ghost want = summary_entries(all);
    let mut names: Vec<String> = Vec::new();
    let mut k: usize = 0;
    while k < pairs.len()
        invariant
            k <= pairs.len(),
            all == pair_views(pairs@),
            views(names@) == logins_of(all).take(k as int),
        decreases pairs.len() - k,
    {
        let ghost before = names@;
        let name = pairs[k].0.clone();
        names.push(name);
        proof {
            lemma_views_push(before, name);
            assert(views(before).push(name@) =~= logins_of(all).take(k + 1));
        }
        k += 1;
    }
    assert(logins_of(all).take(pairs.len() as int) =~= logins_of(all));
    let logins = sort_distinct(&names);
    let mut entries: Vec<String> = Vec::new();
    let mut i: usize = 0;
    while i < logins.len()
        invariant
            i <= logins.len(),
            all == pair_views(pairs@),
            want == summary_entries(all),
            views(logins@) == sorted_distinct(logins_of(all)),
            views(entries@) == want.take(i as int),
        decreases logins.len() - i,
    {
        let ghost before = entries@;
        let login = logins[i].as_str();
        assert(views(logins@)[i as int] == login@);
        let n = find_number(pairs, login);
        let mut entry = String::new();
        entry.append("[");
        entry.append(login);
        entry.append(" (");
        append_nat(&mut entry, n as u64);
        entry.append(")](https://rfcbot.rs/fcp/");
        entry.append(login);
        entry.append(")");
        assert(entry@ =~= reviewer_entry(login@, n as nat));
        entries.push(entry);
        proof {
            lemma_views_push(before, entry);
            assert(views(before).push(entry@) =~= want.take(i + 1));
        }
        i += 1;
    }
    assert(want.take(logins.len() as int) =~= want);
    append_joined_texts(out, &entries, ", ");
}

proof fn lemma_number_for(pairs: Seq<(Seq<char>, nat)>, login: Seq<char>)
    ensures
        logins_of(pairs).contains(login) ==> exists|i: int|
            0 <= i < pairs.len() && (#[trigger] pairs[i]).0 == login && pairs[i].1 == number_for(
                pairs,
                login,
            ),
    decreases pairs.len(),
{
    if logins_of(pairs).contains(login) {
        let k = choose|k: int| 0 <= k < pairs.len() && logins_of(pairs)[k] == login;
        if pairs[0].0 == login {
        } else {
            let rest = pairs.skip(1);
            assert(logins_of(rest)[k - 1] == login);
            lemma_number_for(rest, login);
            let i = choose|i: int|
                0 <= i < rest.len() && (#[trigger] rest[i]).0 == login && rest[i].1 == number_for(
                    rest,
                    login,
                );
            assert(pairs[i + 1] == rest[i]);
        }
    }
}

/// Where the pairs hold, for exactly the members for whom a proposal waits,
/// the number of proposals that wait for them, the summary made from the
/// pairs is that of the proposals.
proof fn lemma_summary_of_counts(ps: Seq<ProposalView>, pairs: Seq<(Seq<char>, nat)>)
    requires
        forall|i: int|
            0 <= i < pairs.len() ==> (#[trigger] pairs[i]).1 > 0 && pairs[i].1 == occurrences(
                pending(ps),
                pairs[i].0,
            ),
        forall|k: int|
            0 <= k < pending(ps).len() ==> logins_of(pairs).contains(#[trigger] pending(ps)[k]),
    ensures
        summary_entries(pairs) == reviewer_entries(ps),
{
    let want = pending(ps);
    let have = logins_of(pairs);
    assert forall|y: Seq<char>| have.contains(y) <==> want.contains(y) by {
        if have.contains(y) {
            let i = choose|i: int| 0 <= i < have.len() && have[i] == y;
            assert(pairs[i].1 > 0);
            crate::text::lemma_occurrences_of_member(want, y);
        }
        if want.contains(y) {
            let k = choose|k: int| 0 <= k < want.len() && want[k] == y;
            assert(have.contains(want[k]));
        }
    }
    crate::order::lemma_sorted_distinct_by_content(have, want);
    lemma_sorted_distinct(have);
    let logins = sorted_distinct(have);
    assert forall|i: int| 0 <= i < logins.len() implies number_for(pairs, logins[i])
        == occurrences(want, logins[i]) by {
        assert(logins.contains(logins[i]));
        assert(have.contains(logins[i]));
        lemma_number_for(pairs, logins[i]);
    }
    assert(summary_entries(pairs) =~= reviewer_entries(ps));
}

/// Appends the section on the proposals `ps`, which are those of the team
/// with the label `label`.
pub fn append_fcps(out: &mut String, label: &str, ps: &Vec<Proposal>)
    ensures
        final(out)@ == old(out)@ + fcps_text(label@, views(ps@)),
{
    out.append("### FCPs\n");
    out.append("\n");
    append_nat(out, ps.len() as u64);
    out.append(" open ");
    out.append(label);
    out.append(" FCPs:\n");
    append_repo_blocks(out, ps);
    out.append("<p></p>\n\n");
    let waiting = pending_logins(ps);
    let counts = count_each(&waiting);
    proof {
        let pairs = pair_views(counts@);
        assert forall|k: int| 0 <= k < pending(views(ps@)).len() implies logins_of(
            pairs,
        ).contains(#[trigger] pending(views(ps@))[k]) by {
            assert(has_key(counts@, waiting[k]@));
            let i = choose|i: int|
                0 <= i < counts.len() && (#[trigger] counts[i]).0@ == waiting[k]@;
            assert(logins_of(pairs)[i] == waiting[k]@);
        }
        assert forall|i: int| 0 <= i < pairs.len() implies (#[trigger] pairs[i]).1 > 0
            && pairs[i].1 == occurrences(pending(views(ps@)), pairs[i].0) by {
            assert(counts[i].1 > 0);
        }
        lemma_summary_of_counts(views(ps@), pairs);
    }
    append_summary(out, &counts);
    out.append("\n");
    out.append("\n");
    assert(out@ =~= old(out)@ + fcps_text(label@, views(ps@)));
}

/// The summary names a member exactly if one of the proposals waits for
/// them. It names each once, by ascending login, with a number that is at
/// least one.
pub proof fn lemma_summary_members(ps: Seq<ProposalView>)
    ensures
        crate::order::ascending(sorted_distinct(pending(ps))),
        forall|login: Seq<char>| #[trigger]
            sorted_distinct(pending(ps)).contains(login) <==> pending(ps).contains(login),
        forall|login: Seq<char>|
            pending(ps).contains(login) ==> #[trigger] occurrences(pending(ps), login) >= 1,
{
    lemma_sorted_distinct(pending(ps));
    assert forall|login: Seq<char>| pending(ps).contains(login) implies #[trigger] occurrences(
        pending(ps),
        login,
    ) >= 1 by {
        crate::text::lemma_occurrences_of_member(pending(ps), login);
    }
}

} // verus!
