//! The orchestrator: one run, from the candidate URLs of a document to the
//! final report.
//!
//! It owns the permit pool, one fetcher for each URL it schedules, and the
//! store of verdicts. Like the fetchers it does no I/O: its driver performs
//! what the fetchers ask for, tells it which check is over, and writes the
//! store out after each.

use crate::fetch::Action;
use crate::fetch::ActionView;
use crate::fetch::Event;
use crate::fetch::Fetcher;
use crate::fetch::FetcherView;
use crate::fetch::Input;
use crate::fetch::lemma_step_keeps_order;
use crate::handles::MaxHandles;
use crate::ordered::texts;
use crate::outcome::progress_marker;
use crate::results::Report;
use crate::results::Results;
use crate::results::report_of;
use crate::rewrite::actions_rewrite_of;
use crate::text::starts_with;
use vstd::prelude::*;

verus! {

/// What a URL must begin with to be checked.
pub fn scheme_prefix() -> (prefix: &'static str)
    ensures
        prefix@ == "http"@,
{
    "http"
}

/// Whether a candidate is to be checked in a run that begins with `working`
/// as the URLs known to work: it begins with the scheme prefix and is not
/// known to work.
pub open spec fn eligible(url: Seq<char>, working: Set<Seq<char>>) -> bool {
    "http"@.is_prefix_of(url) && !working.contains(url)
}

/// The URLs that are scheduled for the candidates of a document: those that
/// are eligible, in the order of the document, each as often as it occurs.
pub open spec fn scheduled(candidates: Seq<Seq<char>>, working: Set<Seq<char>>) -> Seq<Seq<char>>
    decreases candidates.len(),
{
    if candidates.len() == 0 {
        Seq::empty()
    } else if eligible(candidates.last(), working) {
        scheduled(candidates.drop_last(), working).push(candidates.last())
    } else {
        scheduled(candidates.drop_last(), working)
    }
}

/// Every scheduled URL is one of the candidates, begins with the scheme
/// prefix, and is not among the URLs known to work: for a URL that is known
/// to work no fetcher is made.
pub proof fn lemma_scheduled(candidates: Seq<Seq<char>>, working: Set<Seq<char>>)
    ensures
        scheduled(candidates, working).len() <= candidates.len(),
        forall|i: int|
            0 <= i < scheduled(candidates, working).len() ==> {
                let url = #[trigger] scheduled(candidates, working)[i];
                &&& candidates.contains(url)
                &&& "http"@.is_prefix_of(url)
                &&& !working.contains(url)
            },
        forall|i: int|
            0 <= i < candidates.len() && eligible(#[trigger] candidates[i], working) ==> scheduled(
                candidates,
                working,
            ).contains(candidates[i]),
    decreases candidates.len(),
{
    if candidates.len() > 0 {
        let rest = candidates.drop_last();
        lemma_scheduled(rest, working);
        let all = scheduled(candidates, working);
        let most = scheduled(rest, working);
        assert forall|i: int| 0 <= i < all.len() implies {
            let url = #[trigger] all[i];
            &&& candidates.contains(url)
            &&& "http"@.is_prefix_of(url)
            &&& !working.contains(url)
        } by {
            if i < most.len() {
                assert(all[i] == most[i]);
                let k = choose|k: int| 0 <= k < rest.len() && rest[k] == most[i];
                assert(candidates[k] == all[i]);
            } else {
                assert(candidates[candidates.len() - 1] == all[i]);
            }
        }
        assert forall|i: int|
            0 <= i < candidates.len() && eligible(#[trigger] candidates[i], working) implies all.contains(
            candidates[i],
        ) by {
            if i < rest.len() {
                assert(rest[i] == candidates[i]);
                let k = choose|k: int| 0 <= k < most.len() && most[k] == rest[i];
                assert(all[k] == candidates[i]);
            } else {
                assert(all[all.len() - 1] == candidates[i]);
            }
        }
    }
}

/// The number of permits that a list of fetchers holds together.
pub open spec fn total_held(tasks: Seq<FetcherView>) -> nat
    decreases tasks.len(),
{
    if tasks.len() == 0 {
        0
    } else {
        total_held(tasks.drop_last()) + tasks.last().held()
    }
}

/// The total counts each fetcher's permits.
pub proof fn lemma_total_held_update(tasks: Seq<FetcherView>, at: int, next: FetcherView)
    requires
        0 <= at < tasks.len(),
    ensures
        total_held(tasks.update(at, next)) == total_held(tasks) - tasks[at].held() + next.held(),
        tasks[at].held() <= total_held(tasks),
    decreases tasks.len(),
{
    let changed = tasks.update(at, next);
    if at == tasks.len() - 1 {
        assert(changed.drop_last() =~= tasks.drop_last());
    } else {
        lemma_total_held_update(tasks.drop_last(), at, next);
        assert(changed.drop_last() =~= tasks.drop_last().update(at, next));
    }
}

/// Fetchers that have not begun hold no permit.
pub proof fn lemma_total_held_start(tasks: Seq<FetcherView>)
    requires
        forall|i: int| 0 <= i < tasks.len() ==> (#[trigger] tasks[i]).held() == 0,
    ensures
        total_held(tasks) == 0,
    decreases tasks.len(),
{
    if tasks.len() > 0 {
        lemma_total_held_start(tasks.drop_last());
    }
}

/// How many of the flags are not set.
pub open spec fn count_unset(flags: Seq<bool>) -> nat
    decreases flags.len(),
{
    if flags.len() == 0 {
        0
    } else {
        count_unset(flags.drop_last()) + if flags.last() {
            0nat
        } else {
            1nat
        }
    }
}

/// Setting a flag that was not set leaves one fewer unset.
pub proof fn lemma_count_unset_set(flags: Seq<bool>, at: int)
    requires
        0 <= at < flags.len(),
        !flags[at],
    ensures
        count_unset(flags.update(at, true)) == count_unset(flags) - 1,
        count_unset(flags) <= flags.len(),
    decreases flags.len(),
{
    let changed = flags.update(at, true);
    lemma_count_unset_bound(flags.drop_last());
    if at == flags.len() - 1 {
        assert(changed.drop_last() =~= flags.drop_last());
    } else {
        lemma_count_unset_set(flags.drop_last(), at);
        assert(changed.drop_last() =~= flags.drop_last().update(at, true));
    }
}

/// No more flags are unset than there are flags; none is unset exactly if
/// all are set.
pub proof fn lemma_count_unset_bound(flags: Seq<bool>)
    ensures
        count_unset(flags) <= flags.len(),
        count_unset(flags) == 0 <==> forall|i: int| 0 <= i < flags.len() ==> flags[i],
        (forall|i: int| 0 <= i < flags.len() ==> !flags[i]) ==> count_unset(flags) == flags.len(),
    decreases flags.len(),
{
    if flags.len() > 0 {
        let rest = flags.drop_last();
        lemma_count_unset_bound(rest);
        if count_unset(flags) == 0 {
            assert forall|i: int| 0 <= i < flags.len() implies flags[i] by {
                if i < rest.len() {
                    assert(rest[i] == flags[i]);
                }
            }
        }
        if forall|i: int| 0 <= i < flags.len() ==> flags[i] {
            assert forall|i: int| 0 <= i < rest.len() implies rest[i] by {
                assert(rest[i] == flags[i]);
            }
        }
        if forall|i: int| 0 <= i < flags.len() ==> !flags[i] {
            assert forall|i: int| 0 <= i < rest.len() implies !rest[i] by {
                assert(rest[i] == flags[i]);
            }
        }
    }
}

/// The fetchers that a run begins with: one for each scheduled URL, none of
/// them begun.
pub open spec fn tasks_for(urls: Seq<Seq<char>>) -> Seq<FetcherView> {
    Seq::new(urls.len(), |i: int| FetcherView::start(urls[i]))
}

/// One run.
#[derive(Debug)]
pub struct Orchestrator {
    handles: MaxHandles,
    fetchers: Vec<Fetcher>,
    recorded: Vec<bool>,
    results: Results,
    pending: usize,
}

impl Orchestrator {
    /// The permit pool.
    pub closed spec fn handles(&self) -> MaxHandles {
        self.handles
    }

    /// The state of each fetcher, in the order in which they were scheduled.
    pub closed spec fn tasks(&self) -> Seq<FetcherView> {
        Seq::new(self.fetchers.len() as nat, |i: int| self.fetchers[i]@)
    }

    /// The URL of each fetcher.
    pub open spec fn urls(&self) -> Seq<Seq<char>> {
        Seq::new(self.tasks().len(), |i: int| self.tasks()[i].url)
    }

    /// For each fetcher, whether its outcome was taken down in the store.
    pub closed spec fn recorded(&self) -> Seq<bool> {
        self.recorded@
    }

    /// The store of verdicts.
    pub closed spec fn store(&self) -> Results {
        self.results
    }

    /// What the fields hold beyond what [`Orchestrator::wf`] says of the
    /// run: each fetcher has the permits of its state in hand, and the
    /// number of checks to come is kept.
    pub closed spec fn sound(&self) -> bool {
        &&& forall|i: int| 0 <= i < self.fetchers.len() ==> (#[trigger] self.fetchers[i]).wf()
        &&& self.pending == count_unset(self.recorded@)
    }

    /// What holds throughout a run. The permits that the pool counts as
    /// outstanding are exactly those that the fetchers hold, and they are no
    /// more than the pool was made with. An outcome is taken down only once
    /// the check is over.
    pub open spec fn wf(&self) -> bool {
        &&& self.sound()
        &&& self.handles().wf()
        &&& self.store().wf()
        &&& self.recorded().len() == self.tasks().len()
        &&& forall|i: int| 0 <= i < self.tasks().len() ==> (#[trigger] self.tasks()[i]).wf()
        &&& self.handles().outstanding() == total_held(self.tasks())
        &&& forall|i: int|
            0 <= i < self.tasks().len() && #[trigger] self.recorded()[i] ==> self.tasks()[i].concluded()
    }

    /// Whether the outcome of fetcher `task` is there to be taken down: the
    /// fetcher exists, its check is over, and its outcome was not taken down
    /// before.
    pub open spec fn due(&self, task: usize) -> bool {
        &&& task < self.tasks().len()
        &&& self.tasks()[task as int].concluded()
        &&& !self.recorded()[task as int]
    }

    /// Begins a run: with `results` as the store, a pool of `capacity`
    /// permits, and one fetcher for each candidate that is eligible.
    pub fn new(results: Results, candidates: Vec<String>, capacity: u32) -> (run: Orchestrator)
        requires
            results.wf(),
        ensures
            run.wf(),
            run.store() == results,
            run.handles().capacity() == capacity,
            run.handles().outstanding() == 0,
            run.tasks() == tasks_for(scheduled(texts(candidates@), results@.working)),
            run.urls() == scheduled(texts(candidates@), results@.working),
            run.recorded() == Seq::new(run.tasks().len(), |i: int| false),
    {
        let ghost all = texts(candidates@);
        let ghost working = results@.working;
        let mut fetchers: Vec<Fetcher> = Vec::new();
        let mut recorded: Vec<bool> = Vec::new();
        let mut i: usize = 0;
        while i < candidates.len()
            invariant
                i <= candidates.len(),
                results.wf(),
                working == results@.working,
                all == texts(candidates@),
                fetchers.len() == scheduled(all.take(i as int), working).len(),
                recorded.len() == fetchers.len(),
                forall|k: int| 0 <= k < fetchers.len() ==> (#[trigger] fetchers[k]).wf(),
                forall|k: int|
                    0 <= k < fetchers.len() ==> (#[trigger] fetchers[k])@ == FetcherView::start(
                        scheduled(all.take(i as int), working)[k],
                    ),
                forall|k: int| 0 <= k < recorded.len() ==> !(#[trigger] recorded[k]),
            decreases candidates.len() - i,
        {
            let url = candidates[i].as_str();
            proof {
                assert(all.take(i + 1).drop_last() =~= all.take(i as int));
                assert(all.take(i + 1).last() == url@);
            }
            if starts_with(url, scheme_prefix()) && !results.is_working(url) {
                fetchers.push(Fetcher::new(candidates[i].clone()));
                recorded.push(false);
            }
            i = i + 1;
        }
        assert(all.take(candidates.len() as int) =~= all);
        let pending = fetchers.len();
        let run = Orchestrator {
            handles: MaxHandles::new(capacity),
            fetchers,
            recorded,
            results,
            pending,
        };
        proof {
            assert(run.tasks() =~= tasks_for(scheduled(all, working)));
            assert(run.urls() =~= scheduled(all, working));
            assert(run.recorded() =~= Seq::new(run.tasks().len(), |i: int| false));
            lemma_count_unset_bound(run.recorded());
            lemma_total_held_start(run.tasks());
        }
        run
    }

    /// How many fetchers the run has.
    pub fn len(&self) -> (n: usize)
        ensures
            n == self.tasks().len(),
    {
        self.fetchers.len()
    }

    /// How many checks are still to come: the fetchers whose outcome was not
    /// taken down yet.
    pub fn pending(&self) -> (n: usize)
        requires
            self.wf(),
        ensures
            n == count_unset(self.recorded()),
            n == 0 <==> forall|i: int| 0 <= i < self.tasks().len() ==> self.recorded()[i],
    {
        proof {
            lemma_count_unset_bound(self.recorded());
        }
        self.pending
    }

    /// The store of verdicts, to be written out.
    pub fn results(&self) -> (results: &Results)
        ensures
            *results == self.store(),
    {
        &self.results
    }

    /// The permit pool.
    pub fn pool(&self) -> (pool: &MaxHandles)
        ensures
            *pool == self.handles(),
    {
        &self.handles
    }

    /// Fetcher `task`, if there is such a fetcher.
    pub fn fetcher(&self, task: usize) -> (fetcher: Option<&Fetcher>)
        ensures
            task < self.tasks().len() ==> (fetcher matches Some(f) && f@ == self.tasks()[task as int]),
            task >= self.tasks().len() ==> fetcher is None,
    {
        if task < self.fetchers.len() {
            Some(&self.fetchers[task])
        } else {
            None
        }
    }

    /// The URL of fetcher `task`, if there is such a fetcher.
    pub fn url(&self, task: usize) -> (url: Option<&str>)
        ensures
            task < self.tasks().len() ==> (url matches Some(text) && text@ == self.tasks()[task as int].url),
            task >= self.tasks().len() ==> url is None,
    {
        if task < self.fetchers.len() {
            Some(self.fetchers[task].url())
        } else {
            None
        }
    }

    /// Has fetcher `task` take one step for `event`, with the pool as it is,
    /// and gives what the fetcher asks for next. Where there is no such
    /// fetcher nothing changes and nothing is asked for.
    pub fn step(&mut self, task: usize, event: Event) -> (action: Action)
        requires
            old(self).wf(),
        ensures
            final(self).wf(),
            final(self).store() == old(self).store(),
            final(self).recorded() == old(self).recorded(),
            final(self).urls() == old(self).urls(),
            final(self).handles().capacity() == old(self).handles().capacity(),
            0 <= final(self).handles().outstanding() <= final(self).handles().capacity(),
            task < old(self).tasks().len() ==> {
                let before = old(self).tasks()[task as int];
                let after = before.step(
                    Input {
                        event: event@,
                        free: old(self).handles().remaining() > 0,
                        rewrite: actions_rewrite_of(before.url),
                    },
                );
                &&& final(self).tasks() == old(self).tasks().update(task as int, after)
                &&& action@ == after.pending()
                &&& final(self).handles().outstanding() == old(self).handles().outstanding()
                    + after.held() - before.held()
            },
            task >= old(self).tasks().len() ==> {
                &&& final(self).tasks() == old(self).tasks()
                &&& final(self).handles() == old(self).handles()
                &&& action@ == ActionView::Done
            },
    {
        if task >= self.fetchers.len() {
            return Action::Done;
        }
        let ghost tasks = self.tasks();
        proof {
            assert(tasks[task as int] == self.fetchers[task as int]@);
            assert(self.fetchers[task as int].wf());
            lemma_total_held_update(tasks, task as int, tasks[task as int]);
        }
        let action = self.fetchers[task].step(&mut self.handles, event);
        proof {
            let after = self.fetchers[task as int]@;
            assert(self.tasks() =~= tasks.update(task as int, after));
            lemma_total_held_update(tasks, task as int, after);
            lemma_step_keeps_order(
                tasks[task as int],
                Input {
                    event: event@,
                    free: old(self).handles().remaining() > 0,
                    rewrite: actions_rewrite_of(tasks[task as int].url),
                },
            );
            assert(self.urls() =~= old(self).urls());
        }
        action
    }

    /// Takes the outcome of fetcher `task` down in the store, if it is due,
    /// and gives the mark to print for it. The outcome goes under the URL
    /// that the fetcher was made for. Where no outcome is due nothing
    /// changes and there is no mark.
    pub fn record(&mut self, task: usize) -> (mark: Option<&'static str>)
        requires
            old(self).wf(),
        ensures
            final(self).wf(),
            final(self).tasks() == old(self).tasks(),
            final(self).handles() == old(self).handles(),
            old(self).due(task) ==> {
                let fetcher = old(self).tasks()[task as int];
                &&& final(self).recorded() == old(self).recorded().update(task as int, true)
                &&& final(self).store()@ == old(self).store()@.noted(fetcher.url, fetcher.outcome()->0)
                &&& (mark matches Some(text) && text@ == progress_marker(fetcher.outcome()->0))
                &&& count_unset(final(self).recorded()) == count_unset(old(self).recorded()) - 1
            },
            !old(self).due(task) ==> {
                &&& final(self).recorded() == old(self).recorded()
                &&& final(self).store() == old(self).store()
                &&& mark is None
            },
    {
        if task >= self.fetchers.len() {
            return None;
        }
        if self.recorded[task] {
            return None;
        }
        proof {
            assert(self.tasks()[task as int] == self.fetchers[task as int]@);
            assert(self.fetchers[task as int].wf());
        }
        match self.fetchers[task].outcome() {
            Some(outcome) => {
                let mark = self.results.note(self.fetchers[task].url(), &outcome);
                self.recorded[task] = true;
                proof {
                    lemma_count_unset_set(old(self).recorded(), task as int);
                    assert(self.recorded() =~= old(self).recorded().update(task as int, true));
                    assert(self.tasks() =~= old(self).tasks());
                }
                self.pending = self.pending - 1;
                Some(mark)
            },
            None => None,
        }
    }

    /// Throughout a run the fetchers hold exactly the permits that are
    /// outstanding, and these are never more than the pool was made with.
    pub proof fn lemma_permits_bounded(&self)
        requires
            self.wf(),
        ensures
            self.handles().outstanding() == total_held(self.tasks()),
            0 <= self.handles().outstanding() <= self.handles().capacity(),
    {
    }

    /// Once no check is to come, every check is over and every permit is
    /// back in the pool.
    pub proof fn lemma_all_permits_back(&self)
        requires
            self.wf(),
            count_unset(self.recorded()) == 0,
        ensures
            forall|i: int| 0 <= i < self.tasks().len() ==> (#[trigger] self.tasks()[i]).concluded(),
            self.handles().outstanding() == 0,
    {
        lemma_count_unset_bound(self.recorded());
        assert forall|i: int| 0 <= i < self.tasks().len() implies (#[trigger] self.tasks()[i]).concluded() by {
            assert(self.recorded()[i]);
        }
        lemma_total_held_start(self.tasks());
    }

    /// What is to be said at the end of the run: see [`report_of`].
    pub fn report(&self) -> (report: Report)
        requires
            self.wf(),
        ensures
            report@ == report_of(self.store().failed_list()),
            report.failure is None <==> self.store()@.failed == Map::<Seq<char>, Seq<char>>::empty(),
    {
        self.results.report()
    }
}

} // verus!
