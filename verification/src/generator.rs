//! The generator: the document that is being written, and what it has
//! listed so far.

use crate::agenda::{agenda_text, all_batches, answers_fit, seen_after, sections, Variant};
use crate::collector::Collector;
use crate::fcp::{append_fcps, fcps_text, has_label, select, selected, Proposal, Timestamp};
use crate::issue::{
    append_issue_entries, issue_entries, keep_unseen, seen_with, unseen, Issue,
};
use crate::outside::utc_now;
use crate::query::{batches, request_count, section_text, seen_through, GithubQuery};
use crate::text::views;
use vstd::prelude::*;
use vstd::string::*;

verus! {

/// Writes one agenda. It holds the text written so far and the URLs of the
/// issues that the queries have gone through, so that no issue is listed
/// twice in one document.
pub struct Generator {
    agenda: String,
    seen: Collector,
    stale_fcps_only: bool,
}

impl Default for Generator {
    /// A generator that has written nothing and seen nothing, and that lists
    /// every proposal of a team.
    fn default() -> (r: Generator)
        ensures
            r.text() == Seq::<char>::empty(),
            r.seen() == Set::<Seq<char>>::empty(),
            !r.stale_only(),
    {
        Generator { agenda: String::new(), seen: Collector::new(), stale_fcps_only: false }
    }
}

impl Generator {
    /// The text written so far.
    pub closed spec fn text(&self) -> Seq<char> {
        self.agenda@
    }

    /// The URLs of the issues that the queries have gone through.
    pub closed spec fn seen(&self) -> Set<Seq<char>> {
        self.seen@
    }

    /// Whether the section on proposals lists only those that have stalled.
    pub closed spec fn stale_only(&self) -> bool {
        self.stale_fcps_only
    }

    /// Sets whether the section on proposals lists only those that have
    /// stalled: that do not wait on their author, were proposed more than
    /// four weeks ago and last changed more than five days ago.
    pub fn stale_fcps_only(self, on: bool) -> (r: Generator)
        ensures
            r.text() == self.text(),
            r.seen() == self.seen(),
            r.stale_only() == on,
    {
        let mut r = self;
        r.stale_fcps_only = on;
        r
    }

    /// The text written so far.
    pub fn agenda(&self) -> (r: &str)
        ensures
            r@ == self.text(),
    {
        self.agenda.as_str()
    }

    /// Passes the issues through the record of what was listed: an issue
    /// whose URL was seen is dropped; any other is kept, in its place, and
    /// its URL is recorded.
    pub fn dedup(&mut self, issues: Vec<Issue>) -> (kept: Vec<Issue>)
        ensures
            views(kept@) == unseen(old(self).seen(), views(issues@)),
            final(self).seen() == seen_with(old(self).seen(), views(issues@)),
            final(self).text() == old(self).text(),
            final(self).stale_only() == old(self).stale_only(),
    {
        keep_unseen(&mut self.seen, issues)
    }

    /// Writes the lines of the issues, the last issue first.
    pub fn write_issues(&mut self, issues: &Vec<Issue>)
        ensures
            final(self).text() == old(self).text() + issue_entries(views(issues@)),
            final(self).seen() == old(self).seen(),
            final(self).stale_only() == old(self).stale_only(),
    {
        append_issue_entries(&mut self.agenda, issues);
    }

    /// Writes the section on the proposals of the team with the label
    /// `label`, given all open proposals and the present moment. The moment
    /// counts only where the generator lists stalled proposals only.
    pub fn fcps_at(&mut self, label: String, proposals: Vec<Proposal>, now: Timestamp)
        ensures
            final(self).text() == old(self).text() + fcps_text(
                label@,
                selected(views(proposals@), label@, old(self).stale_only(), now),
            ),
            final(self).seen() == old(self).seen(),
            final(self).stale_only() == old(self).stale_only(),
    {
        let chosen = select(proposals, label.as_str(), self.stale_fcps_only, now);
        append_fcps(&mut self.agenda, label.as_str(), &chosen);
    }

    /// Writes the section on the proposals of the team with the label
    /// `label`, given all open proposals. Where the generator lists stalled
    /// proposals only, the clock says which have stalled.
    pub fn fcps(&mut self, label: String, proposals: Vec<Proposal>)
        ensures
            exists|now: Timestamp|
                final(self).text() == old(self).text() + fcps_text(
                    label@,
                    #[trigger] selected(views(proposals@), label@, old(self).stale_only(), now),
                ),
            !old(self).stale_only() ==> final(self).text() == old(self).text() + fcps_text(
                label@,
                views(proposals@).filter(has_label(label@)),
            ),
            final(self).seen() == old(self).seen(),
            final(self).stale_only() == old(self).stale_only(),
    {
        let now = if self.stale_fcps_only {
            utc_now().1
        } else {
            Timestamp { secs: 0, nanos: 0 }
        };
        self.fcps_at(label, proposals, now);
    }

    /// Writes the sections of the queries, one after the other, given for each
    /// query the answers to its requests.
    pub fn write_all(&mut self, queries: &Vec<GithubQuery>, fetched: Vec<Vec<Vec<Issue>>>)
        requires
            answers_fit(views(queries@), all_batches(fetched@)),
        ensures
            final(self).text() == old(self).text() + sections(
                views(queries@),
                old(self).seen(),
                all_batches(fetched@),
                fetched.len() as int,
            ),
            final(self).seen() == seen_after(
                old(self).seen(),
                all_batches(fetched@),
                fetched.len() as int,
            ),
            final(self).stale_only() == old(self).stale_only(),
    {
        let ghost all = all_batches(fetched@);
        let ghost head = self.agenda@;
        let ghost seen = self.seen@;
        let n = fetched.len();
        let mut k: usize = 0;
        for answers in it: fetched
            invariant
                it.seq() == fetched@,
                all == all_batches(fetched@),
                answers_fit(views(queries@), all),
                n == fetched.len(),
                k == it.index(),
                self.agenda@ == head + sections(views(queries@), seen, all, k as int),
                self.seen@ == seen_after(seen, all, k as int),
                self.stale_fcps_only == old(self).stale_fcps_only,
        {
            proof {
                assert(k < n);
                assert(all[k as int] == batches(answers@));
                assert(views(queries@)[k as int] == queries@[k as int]@);
            }
            queries[k].write_to(&mut self.agenda, &mut self.seen, answers);
            assert(self.agenda@ =~= head + (sections(views(queries@), seen, all, k as int)
                + section_text(
                queries@[k as int]@,
                seen_after(seen, all, k as int),
                all[k as int],
            )));
            k += 1;
        }
    }

    /// Writes the agenda of a meeting and hands the document out, given the
    /// date for the title, the present moment, all open proposals, and for
    /// each query of the agenda the answers to its requests. The moment
    /// counts only where the generator lists stalled proposals only.
    pub fn render(
        self,
        variant: Variant,
        date: &str,
        now: Timestamp,
        proposals: Vec<Proposal>,
        fetched: Vec<Vec<Vec<Issue>>>,
    ) -> (r: String)
        requires
            answers_fit(variant.query_views(), all_batches(fetched@)),
        ensures
            r@ == self.text() + agenda_text(
                variant,
                date@,
                selected(
                    views(proposals@),
                    variant.team_label_text(),
                    self.stale_only(),
                    now,
                ),
                self.seen(),
                all_batches(fetched@),
            ),
    {
        let mut g = self;
        let ghost start = g.agenda@;
        g.agenda.append(variant.title());
        g.agenda.append(date);
        g.agenda.append(variant.preamble());
        g.fcps_at(variant.team_label().to_owned(), proposals, now);
        let queries = variant.queries();
        g.write_all(&queries, fetched);
        g.agenda.append(variant.closing());
        proof {
            lemma_regroup(
                start,
                variant.title_text(),
                date@,
                variant.preamble_text(),
                fcps_text(
                    variant.team_label_text(),
                    selected(views(proposals@), variant.team_label_text(), self.stale_only(), now),
                ),
                sections(
                    variant.query_views(),
                    self.seen(),
                    all_batches(fetched@),
                    fetched.len() as int,
                ),
                variant.closing_text(),
            );
        }
        g.agenda
    }

    fn render_today(
        self,
        variant: Variant,
        proposals: Vec<Proposal>,
        fetched: Vec<Vec<Vec<Issue>>>,
    ) -> (r: String)
        requires
            answers_fit(variant.query_views(), all_batches(fetched@)),
        ensures
            exists|date: Seq<char>, now: Timestamp|
                r@ == self.text() + #[trigger] agenda_text(
                    variant,
                    date,
                    #[trigger] selected(
                        views(proposals@),
                        variant.team_label_text(),
                        self.stale_only(),
                        now,
                    ),
                    self.seen(),
                    all_batches(fetched@),
                ),
    {
        let (date, now) = utc_now();
        self.render(variant, date.as_str(), now, proposals, fetched)
    }

    /// Writes the agenda of the Libs-API meeting with today's date, given all
    /// open proposals and the answers to the requests of its queries
    /// ([`Variant::queries`]).
    pub fn libs_api_agenda(self, proposals: Vec<Proposal>, fetched: Vec<Vec<Vec<Issue>>>) -> (r:
        String)
        requires
            answers_fit(Variant::LibsApi.query_views(), all_batches(fetched@)),
        ensures
            exists|date: Seq<char>, now: Timestamp|
                r@ == self.text() + #[trigger] agenda_text(
                    Variant::LibsApi,
                    date,
                    #[trigger] selected(views(proposals@), "T-libs-api"@, self.stale_only(), now),
                    self.seen(),
                    all_batches(fetched@),
                ),
    {
        self.render_today(Variant::LibsApi, proposals, fetched)
    }

    /// Writes the agenda of the Libs meeting with today's date, given all
    /// open proposals and the answers to the requests of its queries
    /// ([`Variant::queries`]).
    pub fn libs_agenda(self, proposals: Vec<Proposal>, fetched: Vec<Vec<Vec<Issue>>>) -> (r:
        String)
        requires
            answers_fit(Variant::Libs.query_views(), all_batches(fetched@)),
        ensures
            exists|date: Seq<char>, now: Timestamp|
                r@ == self.text() + #[trigger] agenda_text(
                    Variant::Libs,
                    date,
                    #[trigger] selected(views(proposals@), "T-libs"@, self.stale_only(), now),
                    self.seen(),
                    all_batches(fetched@),
                ),
    {
        self.render_today(Variant::Libs, proposals, fetched)
    }

    /// Writes the agenda of the error handling project group with today's
    /// date, given all open proposals and the answers to the requests of its
    /// queries ([`Variant::queries`]).
    pub fn error_handling_pg_agenda(
        self,
        proposals: Vec<Proposal>,
        fetched: Vec<Vec<Vec<Issue>>>,
    ) -> (r: String)
        requires
            answers_fit(Variant::ErrorHandlingPG.query_views(), all_batches(fetched@)),
        ensures
            exists|date: Seq<char>, now: Timestamp|
                r@ == self.text() + #[trigger] agenda_text(
                    Variant::ErrorHandlingPG,
                    date,
                    #[trigger] selected(
                        views(proposals@),
                        "PG-error-handling"@,
                        self.stale_only(),
                        now,
                    ),
                    self.seen(),
                    all_batches(fetched@),
                ),
    {
        self.render_today(Variant::ErrorHandlingPG, proposals, fetched)
    }
}

proof fn lemma_regroup(
    start: Seq<char>,
    a: Seq<char>,
    b: Seq<char>,
    c: Seq<char>,
    d: Seq<char>,
    e: Seq<char>,
    f: Seq<char>,
)
    ensures
        start + a + b + c + d + e + f == start + (a + b + c + d + e + f),
{
    assert(start + a + b + c + d + e + f =~= start + (a + b + c + d + e + f));
}

impl GithubQuery {
    /// Writes the section of the query, given the answers to its requests
    /// ([`GithubQuery::endpoints`]): the heading, then for each request with
    /// anything left a line on the request and the lines of its issues, or
    /// the line `None` where no request has anything left.
    pub fn write(&self, generator: &mut Generator, fetched: Vec<Vec<Issue>>)
        requires
            fetched.len() == request_count(self@),
        ensures
            final(generator).text() == old(generator).text() + section_text(
                self@,
                old(generator).seen(),
                batches(fetched@),
            ),
            final(generator).seen() == seen_through(
                old(generator).seen(),
                batches(fetched@),
                fetched.len() as int,
            ),
            final(generator).stale_only() == old(generator).stale_only(),
    {
        self.write_to(&mut generator.agenda, &mut generator.seen, fetched);
    }
}

} // verus!
