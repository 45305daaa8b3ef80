//! Issues as the tracker returns them, and the lines that list them.

use crate::collector::Collector;
use crate::text::{
    append_nat, append_trimmed, contains_text, decimal, escape, escaped, has_prefix,
    lemma_flatten_next, strip_prefix, trimmed, views,
};
use vstd::prelude::*;
use vstd::string::*;

verus! {

/// An issue or pull request of the tracker.
#[derive(Debug)]
pub struct Issue {
    pub number: u32,
    pub html_url: String,
    pub title: String,
    pub labels: Vec<String>,
}

/// What an [`Issue`] holds.
pub struct IssueView {
    pub number: nat,
    pub html_url: Seq<char>,
    pub title: Seq<char>,
    pub labels: Seq<Seq<char>>,
}

impl View for Issue {
    type V = IssueView;

    open spec fn view(&self) -> IssueView {
        IssueView {
            number: self.number as nat,
            html_url: self.html_url@,
            title: self.title@,
            labels: views(self.labels@),
        }
    }
}

/// For each label, in order, the tag that the issue's line shows for it:
/// a priority label (one that begins with `P-`) in backticks after a blank,
/// nothing for any other.
pub open spec fn priority_tags(labels: Seq<Seq<char>>) -> Seq<Seq<char>> {
    Seq::new(
        labels.len(),
        |i: int|
            if "P-"@.is_prefix_of(labels[i]) {
                " `"@ + labels[i] + "`"@
            } else {
                Seq::empty()
            },
    )
}

/// For each label, in order, what the note on a finished comment period asks
/// for it: whether to do what a `disposition-` label names, nothing for any
/// other.
pub open spec fn disposition_hints(labels: Seq<Seq<char>>) -> Seq<Seq<char>> {
    Seq::new(
        labels.len(),
        |i: int|
            if "disposition-"@.is_prefix_of(labels[i]) {
                " Should be "@ + labels[i].skip("disposition-"@.len() as int) + "d?"@
            } else {
                Seq::empty()
            },
    )
}

/// The note under an issue whose final comment period is over; empty for any
/// other issue.
pub open spec fn finished_note(labels: Seq<Seq<char>>) -> Seq<char> {
    if labels.contains("finished-final-comment-period"@) {
        "    FCP finished."@ + disposition_hints(labels).flatten() + "\n"@
    } else {
        Seq::empty()
    }
}

/// The lines of one issue: number and link, priority tags, the title escaped
/// and trimmed, and the note on a finished comment period.
pub open spec fn issue_entry(issue: IssueView) -> Seq<char> {
    "  - [["@ + decimal(issue.number as int) + "]("@ + issue.html_url + ")]"@ + priority_tags(
        issue.labels,
    ).flatten() + " *"@ + trimmed(escaped(issue.title)) + "*\n"@ + finished_note(issue.labels)
}

/// The entries of the issues from the last to the first: what was fetched
/// first is shown last.
pub open spec fn entries_reversed(issues: Seq<IssueView>) -> Seq<Seq<char>> {
    Seq::new(issues.len(), |k: int| issue_entry(issues[issues.len() - 1 - k]))
}

/// The lines of a list of issues, in the reverse of the given order.
pub open spec fn issue_entries(issues: Seq<IssueView>) -> Seq<char> {
    entries_reversed(issues).flatten()
}

fn append_priority_tags(out: &mut String, labels: &Vec<String>)
    ensures
        final(out)@ == old(out)@ + priority_tags(views(labels@)).flatten(),
{
    let ghost parts = priority_tags(views(labels@));
    let mut i: usize = 0;
    while i < labels.len()
        invariant
            i <= labels.len(),
            parts == priority_tags(views(labels@)),
            out@ == old(out)@ + parts.take(i as int).flatten(),
        decreases labels.len() - i,
    {
        let ghost before = out@;
        let label = labels[i].as_str();
        if has_prefix(label, "P-") {
            out.append(" `");
            out.append(label);
            out.append("`");
        }
        proof {
            lemma_flatten_next(parts, i as int);
            assert(out@ =~= before + parts[i as int]);
        }
        i += 1;
    }
    assert(parts.take(labels.len() as int) =~= parts);
}

fn append_disposition_hints(out: &mut String, labels: &Vec<String>)
    ensures
        final(out)@ == old(out)@ + disposition_hints(views(labels@)).flatten(),
{
    let ghost parts = disposition_hints(views(labels@));
    let mut i: usize = 0;
    while i < labels.len()
        invariant
            i <= labels.len(),
            parts == disposition_hints(views(labels@)),
            out@ == old(out)@ + parts.take(i as int).flatten(),
        decreases labels.len() - i,
    {
        let ghost before = out@;
        match strip_prefix(labels[i].as_str(), "disposition-") {
            Some(disposition) => {
                out.append(" Should be ");
                out.append(disposition.as_str());
                out.append("d?");
            },
            None => {},
        }
        proof {
            lemma_flatten_next(parts, i as int);
            assert(out@ =~= before + parts[i as int]);
        }
        i += 1;
    }
    assert(parts.take(labels.len() as int) =~= parts);
}

/// Appends the lines of one issue to `out`.
pub fn append_issue_entry(out: &mut String, issue: &Issue)
    ensures
        final(out)@ == old(out)@ + issue_entry(issue@),
{
    out.append("  - [[");
    append_nat(out, issue.number as u64);
    out.append("](");
    out.append(issue.html_url.as_str());
    out.append(")]");
    append_priority_tags(out, &issue.labels);
    out.append(" *");
    let title = escape(issue.title.as_str());
    append_trimmed(out, title.as_str());
    out.append("*\n");
    if contains_text(&issue.labels, "finished-final-comment-period") {
        out.append("    FCP finished.");
        append_disposition_hints(out, &issue.labels);
        out.append("\n");
    }
    assert(out@ =~= old(out)@ + issue_entry(issue@));
}

/// Appends the lines of the issues to `out`, the last issue first.
pub fn append_issue_entries(out: &mut String, issues: &Vec<Issue>)
    ensures
        final(out)@ == old(out)@ + issue_entries(views(issues@)),
{
    let ghost parts = entries_reversed(views(issues@));
    let mut left: usize = issues.len();
    while left > 0
        invariant
            left <= issues.len(),
            parts == entries_reversed(views(issues@)),
            out@ == old(out)@ + parts.take(issues.len() - left).flatten(),
        decreases left,
    {
        let ghost before = out@;
        proof {
            lemma_flatten_next(parts, issues.len() - left);
        }
        left -= 1;
        append_issue_entry(out, &issues[left]);
        assert(out@ =~= before + parts[issues.len() - left - 1]);
    }
    assert(parts.take(issues.len() as int) =~= parts);
}

/// The URLs of the issues, in order.
pub open spec fn urls(issues: Seq<IssueView>) -> Seq<Seq<char>> {
    Seq::new(issues.len(), |i: int| issues[i].html_url)
}

/// The issues whose URL is seen for the first time: it is not in `seen`, and
/// no earlier issue of the list has it. They keep their order.
pub open spec fn unseen(seen: Set<Seq<char>>, issues: Seq<IssueView>) -> Seq<IssueView>
    decreases issues.len(),
{
    if issues.len() == 0 {
        Seq::empty()
    } else {
        let front = issues.drop_last();
        let last = issues.last();
        if seen.contains(last.html_url) || urls(front).contains(last.html_url) {
            unseen(seen, front)
        } else {
            unseen(seen, front).push(last)
        }
    }
}

/// `seen` together with the URLs of the issues.
pub open spec fn seen_with(seen: Set<Seq<char>>, issues: Seq<IssueView>) -> Set<Seq<char>> {
    seen.union(urls(issues).to_set())
}

/// Passes the issues through the collector: an issue whose URL was seen is
/// dropped, any other is kept and its URL recorded.
pub fn keep_unseen(seen: &mut Collector, issues: Vec<Issue>) -> (kept: Vec<Issue>)
    ensures
        views(kept@) == unseen(old(seen)@, views(issues@)),
        final(seen)@ == seen_with(old(seen)@, views(issues@)),
{
    let ghost all = views(issues@);
    let mut kept: Vec<Issue> = Vec::new();
    assert(views(kept@) =~= Seq::<IssueView>::empty());
    assert(urls(all.take(0)).to_set() =~= Set::<Seq<char>>::empty());
    assert(seen@.union(Set::<Seq<char>>::empty()) =~= seen@);
    for issue in it: issues
        invariant
            it.seq() == issues@,
            all == views(issues@),
            views(kept@) == unseen(old(seen)@, all.take(it.index() as int)),
            seen@ == seen_with(old(seen)@, all.take(it.index() as int)),
    {
        let ghost i = it.index() as int;
        let ghost before = seen@;
        let ghost kept_before = kept@;
        let first = seen.insert(issue.html_url.clone());
        proof {
            assert(all.take(i + 1).drop_last() =~= all.take(i));
            assert(all.take(i + 1).last() == issue@);
            let front = urls(all.take(i));
            let next = urls(all.take(i + 1));
            assert(next =~= front.push(issue@.html_url));
            assert(next.to_set() =~= front.to_set().insert(issue@.html_url)) by {
                assert forall|u: Seq<char>|
                    next.to_set().contains(u) <==> front.to_set().insert(
                        issue@.html_url,
                    ).contains(u) by {
                    if next.contains(u) {
                        let k = choose|k: int| 0 <= k < next.len() && next[k] == u;
                        if k < front.len() {
                            assert(front[k] == u);
                        }
                    }
                    if front.contains(u) {
                        let k = choose|k: int| 0 <= k < front.len() && front[k] == u;
                        assert(next[k] == u);
                    }
                    if u == issue@.html_url {
                        assert(next[front.len() as int] == u);
                    }
                }
            }
            assert(seen@ =~= seen_with(old(seen)@, all.take(i + 1)));
        }
        if first {
            kept.push(issue);
            proof {
                crate::text::lemma_views_push(kept_before, issue);
            }
        }
    }
    assert(all.take(all.len() as int) =~= all);
    kept
}

/// Whether an issue with these labels carries every label of `group`.
pub open spec fn carries_all(labels: Seq<Seq<char>>, group: Seq<Seq<char>>) -> bool {
    forall|i: int| 0 <= i < group.len() ==> labels.contains(#[trigger] group[i])
}

/// Whether an issue with these labels carries every label of one of the
/// excluded groups.
pub open spec fn is_excluded(labels: Seq<Seq<char>>, excluded: Seq<Seq<Seq<char>>>) -> bool {
    exists|g: int| 0 <= g < excluded.len() && carries_all(labels, #[trigger] excluded[g])
}

/// The issues that no excluded group drops, in their order.
pub open spec fn not_excluded(issues: Seq<IssueView>, excluded: Seq<Seq<Seq<char>>>) -> Seq<
    IssueView,
>
    decreases issues.len(),
{
    if issues.len() == 0 {
        Seq::empty()
    } else if is_excluded(issues.last().labels, excluded) {
        not_excluded(issues.drop_last(), excluded)
    } else {
        not_excluded(issues.drop_last(), excluded).push(issues.last())
    }
}

/// The label groups as sequences of texts.
pub open spec fn groups(s: Seq<&'static [&'static str]>) -> Seq<Seq<Seq<char>>> {
    Seq::new(s.len(), |i: int| views(s[i]@))
}

/// Whether the issue's labels hold every label of `group`.
pub fn carries_group(labels: &Vec<String>, group: &[&str]) -> (r: bool)
    ensures
        r == carries_all(views(labels@), views(group@)),
{
    let mut i: usize = 0;
    while i < group.len()
        invariant
            i <= group.len(),
            forall|k: int| 0 <= k < i ==> views(labels@).contains(#[trigger] views(group@)[k]),
        decreases group.len() - i,
    {
        if !contains_text(labels, group[i]) {
            assert(!views(labels@).contains(views(group@)[i as int]));
            return false;
        }
        i += 1;
    }
    true
}

/// Whether one of the excluded groups drops an issue with these labels.
pub fn excludes(excluded: &Vec<&'static [&'static str]>, labels: &Vec<String>) -> (r: bool)
    ensures
        r == is_excluded(views(labels@), groups(excluded@)),
{
    let mut g: usize = 0;
    while g < excluded.len()
        invariant
            g <= excluded.len(),
            forall|k: int|
                0 <= k < g ==> !carries_all(views(labels@), #[trigger] groups(excluded@)[k]),
        decreases excluded.len() - g,
    {
        if carries_group(labels, excluded[g]) {
            assert(carries_all(views(labels@), groups(excluded@)[g as int]));
            return true;
        }
        g += 1;
    }
    false
}

/// Drops the issues that carry every label of one of the excluded groups.
pub fn drop_excluded(issues: Vec<Issue>, excluded: &Vec<&'static [&'static str]>) -> (r: Vec<
    Issue,
>)
    ensures
        views(r@) == not_excluded(views(issues@), groups(excluded@)),
{
    let ghost all = views(issues@);
    let mut r: Vec<Issue> = Vec::new();
    assert(views(r@) =~= Seq::<IssueView>::empty());
    for issue in it: issues
        invariant
            it.seq() == issues@,
            all == views(issues@),
            views(r@) == not_excluded(all.take(it.index() as int), groups(excluded@)),
    {
        let ghost i = it.index() as int;
        let ghost before = r@;
        proof {
            assert(all.take(i + 1).drop_last() =~= all.take(i));
            assert(all.take(i + 1).last() == issue@);
        }
        if !excludes(excluded, &issue.labels) {
            r.push(issue);
            proof {
                crate::text::lemma_views_push(before, issue);
            }
        }
    }
    assert(all.take(all.len() as int) =~= all);
    r
}

/// The first `limit` of the issues, or all of them where there is no limit
/// or there are no more than that.
pub open spec fn limited(issues: Seq<IssueView>, limit: Option<usize>) -> Seq<IssueView> {
    match limit {
        Some(n) => if n < issues.len() {
            issues.take(n as int)
        } else {
            issues
        },
        None => issues,
    }
}

/// Keeps the first `limit` issues.
pub fn apply_limit(issues: Vec<Issue>, limit: Option<usize>) -> (r: Vec<Issue>)
    ensures
        views(r@) == limited(views(issues@), limit),
{
    let mut r = issues;
    match limit {
        Some(n) => {
            r.truncate(n);
            assert(views(r@) =~= limited(views(issues@), limit));
        },
        None => {},
    }
    r
}

/// Dropping the excluded issues twice drops no more than dropping them once.
pub proof fn lemma_not_excluded_idempotent(issues: Seq<IssueView>, excluded: Seq<Seq<Seq<char>>>)
    ensures
        not_excluded(not_excluded(issues, excluded), excluded) == not_excluded(issues, excluded),
    decreases issues.len(),
{
    if issues.len() > 0 {
        let front = issues.drop_last();
        lemma_not_excluded_idempotent(front, excluded);
        if !is_excluded(issues.last().labels, excluded) {
            let once = not_excluded(front, excluded).push(issues.last());
            assert(once.drop_last() =~= not_excluded(front, excluded));
        }
    }
}

/// No issue that is left carries every label of an excluded group, and every
/// issue that is left was there before.
pub proof fn lemma_not_excluded(issues: Seq<IssueView>, excluded: Seq<Seq<Seq<char>>>)
    ensures
        forall|i: int|
            0 <= i < not_excluded(issues, excluded).len() ==> !is_excluded(
                (#[trigger] not_excluded(issues, excluded)[i]).labels,
                excluded,
            ) && issues.contains(not_excluded(issues, excluded)[i]),
        forall|i: int|
            0 <= i < issues.len() && !is_excluded((#[trigger] issues[i]).labels, excluded)
                ==> not_excluded(issues, excluded).contains(issues[i]),
    decreases issues.len(),
{
    if issues.len() > 0 {
        let front = issues.drop_last();
        let r = not_excluded(issues, excluded);
        let f = not_excluded(front, excluded);
        lemma_not_excluded(front, excluded);
        assert forall|i: int| 0 <= i < r.len() implies !is_excluded(
            (#[trigger] r[i]).labels,
            excluded,
        ) && issues.contains(r[i]) by {
            if i < f.len() {
                assert(r[i] == f[i]);
                assert(front.contains(f[i]));
                let k = choose|k: int| 0 <= k < front.len() && front[k] == f[i];
                assert(issues[k] == r[i]);
            } else {
                assert(issues[issues.len() - 1] == r[i]);
            }
        }
        assert forall|i: int|
            0 <= i < issues.len() && !is_excluded(
                (#[trigger] issues[i]).labels,
                excluded,
            ) implies r.contains(issues[i]) by {
            if i < front.len() {
                assert(front[i] == issues[i]);
                assert(f.contains(front[i]));
                let k = choose|k: int| 0 <= k < f.len() && f[k] == issues[i];
                assert(r[k] == issues[i]);
            } else {
                assert(r[r.len() - 1] == issues[i]);
            }
        }
    }
}

/// Whether no two of the issues have the same URL.
pub open spec fn distinct_urls(issues: Seq<IssueView>) -> bool {
    forall|i: int, j: int|
        0 <= i < j < issues.len() ==> (#[trigger] issues[i]).html_url != (
        #[trigger] issues[j]).html_url
}

/// What passes the collector was not seen before, is there once, and was
/// among the issues that were given.
pub proof fn lemma_unseen(seen: Set<Seq<char>>, issues: Seq<IssueView>)
    ensures
        distinct_urls(unseen(seen, issues)),
        forall|i: int|
            0 <= i < unseen(seen, issues).len() ==> !seen.contains(
                (#[trigger] unseen(seen, issues)[i]).html_url,
            ) && issues.contains(unseen(seen, issues)[i]),
    decreases issues.len(),
{
    if issues.len() > 0 {
        let front = issues.drop_last();
        let last = issues.last();
        let f = unseen(seen, front);
        let r = unseen(seen, issues);
        lemma_unseen(seen, front);
        assert forall|i: int| 0 <= i < f.len() implies issues.contains(#[trigger] f[i]) && urls(
            front,
        ).contains(f[i].html_url) by {
            assert(front.contains(f[i]));
            let k = choose|k: int| 0 <= k < front.len() && front[k] == f[i];
            assert(issues[k] == f[i]);
            assert(urls(front)[k] == f[i].html_url);
        }
        assert forall|i: int| 0 <= i < r.len() implies !seen.contains(
            (#[trigger] r[i]).html_url,
        ) && issues.contains(r[i]) by {
            if i < f.len() {
                assert(r[i] == f[i]);
            } else {
                assert(issues[issues.len() - 1] == r[i]);
            }
        }
        assert forall|i: int, j: int| 0 <= i < j < r.len() implies (#[trigger] r[i]).html_url != (
        #[trigger] r[j]).html_url by {
            if j < f.len() {
                assert(r[i] == f[i] && r[j] == f[j]);
            } else {
                assert(r[i] == f[i]);
            }
        }
    }
}

/// Dropping the excluded issues and cutting at the limit leaves no URL
/// twice where none was there twice.
pub proof fn lemma_filters_keep_distinct(
    issues: Seq<IssueView>,
    excluded: Seq<Seq<Seq<char>>>,
    limit: Option<usize>,
)
    requires
        distinct_urls(issues),
    ensures
        distinct_urls(not_excluded(issues, excluded)),
        distinct_urls(limited(not_excluded(issues, excluded), limit)),
        forall|i: int|
            0 <= i < limited(not_excluded(issues, excluded), limit).len() ==> issues.contains(
                #[trigger] limited(not_excluded(issues, excluded), limit)[i],
            ),
    decreases issues.len(),
{
    let r = not_excluded(issues, excluded);
    lemma_not_excluded(issues, excluded);
    if issues.len() > 0 {
        let front = issues.drop_last();
        let f = not_excluded(front, excluded);
        assert(distinct_urls(front)) by {
            assert forall|i: int, j: int| 0 <= i < j < front.len() implies (
            #[trigger] front[i]).html_url != (#[trigger] front[j]).html_url by {
                assert(issues[i] == front[i] && issues[j] == front[j]);
            }
        }
        lemma_filters_keep_distinct(front, excluded, limit);
        lemma_not_excluded(front, excluded);
        assert forall|i: int, j: int| 0 <= i < j < r.len() implies (#[trigger] r[i]).html_url != (
        #[trigger] r[j]).html_url by {
            if j < f.len() {
                assert(r[i] == f[i] && r[j] == f[j]);
            } else {
                assert(r[i] == f[i]);
                assert(front.contains(f[i]));
                let k = choose|k: int| 0 <= k < front.len() && front[k] == f[i];
                assert(issues[k] == f[i]);
                assert(issues[issues.len() - 1] == r[j]);
            }
        }
    }
    let l = limited(r, limit);
    assert forall|i: int, j: int| 0 <= i < j < l.len() implies (#[trigger] l[i]).html_url != (
    #[trigger] l[j]).html_url by {
        assert(l[i] == r[i] && l[j] == r[j]);
    }
    assert forall|i: int| 0 <= i < l.len() implies issues.contains(#[trigger] l[i]) by {
        assert(l[i] == r[i]);
    }
}

/// An issue passes the collector where its URL was not seen before and no
/// earlier issue of the list has it.
pub proof fn lemma_unseen_keeps_first(seen: Set<Seq<char>>, issues: Seq<IssueView>, x: int)
    requires
        0 <= x < issues.len(),
        !seen.contains(issues[x].html_url),
        forall|y: int| 0 <= y < x ==> (#[trigger] issues[y]).html_url != issues[x].html_url,
    ensures
        unseen(seen, issues).contains(issues[x]),
    decreases issues.len(),
{
    let front = issues.drop_last();
    let r = unseen(seen, issues);
    if x == issues.len() - 1 {
        if urls(front).contains(issues[x].html_url) {
            let y = choose|y: int|
                0 <= y < urls(front).len() && urls(front)[y] == issues[x].html_url;
            assert(issues[y].html_url == issues[x].html_url);
        }
        assert(r[r.len() - 1] == issues[x]);
    } else {
        assert(front[x] == issues[x]);
        assert forall|y: int| 0 <= y < x implies (#[trigger] front[y]).html_url
            != front[x].html_url by {
            assert(issues[y] == front[y]);
        }
        lemma_unseen_keeps_first(seen, front, x);
        let f = unseen(seen, front);
        let m = choose|m: int| 0 <= m < f.len() && f[m] == issues[x];
        assert(r[m] == issues[x]);
    }
}

} // verus!
