//! The store of verdicts: the URLs known to work, and the URLs that failed in
//! this run with the line that reports each.

use crate::ordered::ascending;
use crate::ordered::lemma_ascending_distinct;
use crate::ordered::lemma_ascending_unique;
use crate::ordered::lemma_insert_ascending;
use crate::ordered::lemma_remove_ascending;
use crate::ordered::search;
use crate::ordered::texts;
use crate::outcome::diagnostic;
use crate::outcome::progress_marker;
use crate::outcome::CheckOutcome;
use crate::outcome::CheckOutcomeView;
use crate::text::decimal;
use crate::text::lemma_precedes_irreflexive;
use crate::text::precedes;
use crate::text::to_decimal;
use vstd::prelude::*;

verus! {

/// A URL that failed, with the line that reports it, as plain values.
pub type Entry = (Seq<char>, Seq<char>);

/// The URLs of a list of entries.
pub open spec fn keys_of(entries: Seq<Entry>) -> Seq<Seq<char>> {
    Seq::new(entries.len(), |i: int| entries[i].0)
}

/// The mapping that a list of entries stands for. Where a URL occurs more
/// than once, its last entry counts.
pub open spec fn collected(entries: Seq<Entry>) -> Map<Seq<char>, Seq<char>>
    decreases entries.len(),
{
    if entries.len() == 0 {
        Map::empty()
    } else {
        collected(entries.drop_last()).insert(entries.last().0, entries.last().1)
    }
}

/// The mapping of a list of entries holds just the URLs of the list, and,
/// where no URL occurs twice, gives each the line of its entry.
pub proof fn lemma_collected(entries: Seq<Entry>)
    ensures
        forall|k: Seq<char>| #[trigger]
            collected(entries).dom().contains(k) <==> keys_of(entries).contains(k),
        ascending(keys_of(entries)) ==> forall|i: int|
            0 <= i < entries.len() ==> collected(entries)[(#[trigger] entries[i]).0] == entries[i].1,
        collected(entries).dom().finite(),
    decreases entries.len(),
{
    let keys = keys_of(entries);
    if entries.len() > 0 {
        let rest = entries.drop_last();
        let last = entries.last();
        lemma_collected(rest);
        assert forall|k: Seq<char>| #[trigger]
            collected(entries).dom().contains(k) <==> keys.contains(k) by {
            if keys.contains(k) {
                let i = choose|i: int| 0 <= i < keys.len() && keys[i] == k;
                if i < rest.len() {
                    assert(keys_of(rest)[i] == k);
                }
            }
            if k != last.0 && collected(rest).dom().contains(k) {
                let i = choose|i: int| 0 <= i < keys_of(rest).len() && keys_of(rest)[i] == k;
                assert(keys[i] == k);
            }
            if k == last.0 {
                assert(keys[entries.len() - 1] == k);
            }
        }
        if ascending(keys) {
            assert(ascending(keys_of(rest))) by {
                assert forall|i: int, j: int| 0 <= i < j < rest.len() implies precedes(
                    #[trigger] keys_of(rest)[i],
                    #[trigger] keys_of(rest)[j],
                ) by {
                    assert(precedes(keys[i], keys[j]));
                }
            }
            assert forall|i: int| 0 <= i < entries.len() implies {
                collected(entries)[(#[trigger] entries[i]).0] == entries[i].1
            } by {
                if i < rest.len() {
                    assert(rest[i] == entries[i]);
                    assert(precedes(keys[i], keys[entries.len() - 1]));
                    lemma_precedes_irreflexive(last.0);
                }
            }
        }
    }
}

/// Putting an entry for a new URL at the place where it belongs adds it to
/// the mapping.
pub proof fn lemma_entries_insert(entries: Seq<Entry>, at: int, entry: Entry)
    requires
        ascending(keys_of(entries)),
        0 <= at <= entries.len(),
        forall|i: int| 0 <= i < at ==> precedes(#[trigger] keys_of(entries)[i], entry.0),
        forall|i: int| at <= i < entries.len() ==> !precedes(#[trigger] keys_of(entries)[i], entry.0),
        !keys_of(entries).contains(entry.0),
    ensures
        keys_of(entries.insert(at, entry)) == keys_of(entries).insert(at, entry.0),
        ascending(keys_of(entries.insert(at, entry))),
        collected(entries.insert(at, entry)) == collected(entries).insert(entry.0, entry.1),
{
    let longer = entries.insert(at, entry);
    entries.insert_ensures(at, entry);
    keys_of(entries).insert_ensures(at, entry.0);
    assert(keys_of(longer) =~= keys_of(entries).insert(at, entry.0));
    lemma_insert_ascending(keys_of(entries), at, entry.0);
    lemma_collected(entries);
    lemma_collected(longer);
    let before = collected(entries).insert(entry.0, entry.1);
    let after = collected(longer);
    assert forall|k: Seq<char>| after.dom().contains(k) implies #[trigger] after[k] == before[k] by {
        let i = choose|i: int| 0 <= i < longer.len() && keys_of(longer)[i] == k;
        assert(longer[i].0 == k);
        if i < at {
            assert(longer[i] == entries[i]);
        } else if i > at {
            assert(longer[i] == entries[i - 1]);
        }
    }
    assert forall|k: Seq<char>| after.dom().contains(k) <==> before.dom().contains(k) by {
        assert(keys_of(longer).to_set().contains(k) <==> keys_of(entries).to_set().insert(
            entry.0,
        ).contains(k));
    }
    assert(after =~= before);
}

/// Writing a new line into an entry changes the line of its URL in the
/// mapping.
pub proof fn lemma_entries_update(entries: Seq<Entry>, at: int, line: Seq<char>)
    requires
        ascending(keys_of(entries)),
        0 <= at < entries.len(),
    ensures
        keys_of(entries.update(at, (entries[at].0, line))) == keys_of(entries),
        collected(entries.update(at, (entries[at].0, line))) == collected(entries).insert(
            entries[at].0,
            line,
        ),
{
    let changed = entries.update(at, (entries[at].0, line));
    assert(keys_of(changed) =~= keys_of(entries));
    lemma_collected(entries);
    lemma_collected(changed);
    let before = collected(entries).insert(entries[at].0, line);
    let after = collected(changed);
    assert(keys_of(entries)[at] == entries[at].0);
    assert forall|k: Seq<char>| after.dom().contains(k) implies #[trigger] after[k] == before[k] by {
        let i = choose|i: int| 0 <= i < changed.len() && keys_of(changed)[i] == k;
        assert(changed[i].0 == k);
        if i != at {
            assert(changed[i] == entries[i]);
            lemma_ascending_distinct(keys_of(entries), i, i);
            if k == entries[at].0 {
                lemma_ascending_distinct(keys_of(entries), i, at);
            }
        }
    }
    assert(after =~= before);
}

/// Taking an entry out of the list takes its URL out of the mapping.
pub proof fn lemma_entries_remove(entries: Seq<Entry>, at: int)
    requires
        ascending(keys_of(entries)),
        0 <= at < entries.len(),
    ensures
        keys_of(entries.remove(at)) == keys_of(entries).remove(at),
        ascending(keys_of(entries.remove(at))),
        collected(entries.remove(at)) == collected(entries).remove(entries[at].0),
{
    let shorter = entries.remove(at);
    entries.remove_ensures(at);
    keys_of(entries).remove_ensures(at);
    assert(keys_of(shorter) =~= keys_of(entries).remove(at));
    lemma_remove_ascending(keys_of(entries), at);
    lemma_collected(entries);
    lemma_collected(shorter);
    let before = collected(entries).remove(entries[at].0);
    let after = collected(shorter);
    assert(keys_of(entries)[at] == entries[at].0);
    assert forall|k: Seq<char>| after.dom().contains(k) implies #[trigger] after[k] == before[k] by {
        let i = choose|i: int| 0 <= i < shorter.len() && keys_of(shorter)[i] == k;
        assert(shorter[i].0 == k);
        let a = if i < at {
            i
        } else {
            i + 1
        };
        assert(shorter[i] == entries[a]);
        assert(keys_of(entries)[a] == k);
        if k == entries[at].0 {
            lemma_ascending_distinct(keys_of(entries), a, at);
        }
    }
    assert forall|k: Seq<char>| after.dom().contains(k) <==> before.dom().contains(k) by {
        assert(keys_of(shorter).to_set().contains(k) <==> keys_of(entries).to_set().remove(
            entries[at].0,
        ).contains(k));
    }
    assert(after =~= before);
}

/// The verdicts as plain values.
pub struct ResultsView {
    /// The URLs known to work.
    pub working: Set<Seq<char>>,
    /// The URLs that failed, each with the line that reports it.
    pub failed: Map<Seq<char>, Seq<char>>,
}

impl ResultsView {
    /// Whether no URL is held as working and as failed at once.
    pub open spec fn apart(self) -> bool {
        forall|url: Seq<char>| !(self.working.contains(url) && self.failed.dom().contains(url))
    }

    /// The verdicts after the check of `url` has ended in `outcome`. After a
    /// success the URL works and is not held as failed. After a failure it
    /// is held as failed, with the line that reports the failure, unless it
    /// is known to work.
    pub open spec fn noted(self, url: Seq<char>, outcome: CheckOutcomeView) -> ResultsView {
        match outcome {
            CheckOutcomeView::Success => ResultsView {
                working: self.working.insert(url),
                failed: self.failed.remove(url),
            },
            CheckOutcomeView::Failure(error) => ResultsView {
                working: self.working,
                failed: if self.working.contains(url) {
                    self.failed
                } else {
                    self.failed.insert(url, diagnostic(error, url))
                },
            },
        }
    }
}

/// Taking an outcome down never loses a URL that works, and never leaves a
/// URL held as working and as failed at once.
pub proof fn lemma_noted(store: ResultsView, url: Seq<char>, outcome: CheckOutcomeView)
    requires
        store.apart(),
    ensures
        store.working.subset_of(store.noted(url, outcome).working),
        store.noted(url, outcome).apart(),
{
}

/// The verdicts that a list of working URLs and a list of failures stand for
/// together: every URL of the first list works, and the failures are those
/// of the second list, without the URLs that work.
pub open spec fn assembled(working: Seq<Seq<char>>, failed: Seq<Entry>) -> ResultsView {
    ResultsView {
        working: working.to_set(),
        failed: collected(failed).remove_keys(working.to_set()),
    }
}

/// The verdicts of a run and of the runs before it.
///
/// No URL is held as working and as failed at once: a URL that is found to
/// work is no longer held as failed, and a failure of a URL that works is not
/// taken down.
///
/// Both collections are kept as sorted vectors and searched by bisection. The
/// ordered set and map of the standard library would do the same work, but
/// with strings for keys the verifier can prove nothing of what they hold,
/// not even how many entries there are after one insertion; of the vectors
/// everything is proved here.
#[derive(Debug)]
pub struct Results {
    working: Vec<String>,
    failed_urls: Vec<String>,
    failed_messages: Vec<String>,
}

impl View for Results {
    type V = ResultsView;

    open spec fn view(&self) -> ResultsView {
        ResultsView { working: self.working_list().to_set(), failed: collected(self.failed_list()) }
    }
}

impl Results {
    /// The URLs known to work, in ascending order.
    pub closed spec fn working_list(&self) -> Seq<Seq<char>> {
        texts(self.working@)
    }

    /// The failures, in ascending order of their URLs.
    pub closed spec fn failed_list(&self) -> Seq<Entry> {
        Seq::new(
            self.failed_urls.len() as nat,
            |i: int| (self.failed_urls[i]@, self.failed_messages[i]@),
        )
    }

    /// Each failure has its line.
    pub closed spec fn paired(&self) -> bool {
        self.failed_urls.len() == self.failed_messages.len()
    }

    /// Both lists are in ascending order, so that neither holds a URL twice,
    /// and no URL is in both.
    pub open spec fn wf(&self) -> bool {
        &&& self.paired()
        &&& ascending(self.working_list())
        &&& ascending(keys_of(self.failed_list()))
        &&& forall|i: int, j: int|
            0 <= i < self.working_list().len() && 0 <= j < self.failed_list().len()
                ==> #[trigger] self.working_list()[i] != (#[trigger] self.failed_list()[j]).0
    }

    /// The empty store.
    pub fn new() -> (results: Results)
        ensures
            results.wf(),
            results.working_list() == Seq::<Seq<char>>::empty(),
            results.failed_list() == Seq::<Entry>::empty(),
            results@.working == Set::<Seq<char>>::empty(),
            results@.failed == Map::<Seq<char>, Seq<char>>::empty(),
    {
        let results = Results {
            working: Vec::new(),
            failed_urls: Vec::new(),
            failed_messages: Vec::new(),
        };
        assert(results.working_list() =~= Seq::<Seq<char>>::empty());
        assert(results.failed_list() =~= Seq::<Entry>::empty());
        assert(results@.working =~= Set::<Seq<char>>::empty());
        results
    }

    /// Whether `url` is known to work.
    pub fn is_working(&self, url: &str) -> (known: bool)
        requires
            self.wf(),
        ensures
            known == self@.working.contains(url@),
    {
        search(&self.working, url).1
    }

    /// How many URLs have failed.
    pub fn failed_len(&self) -> (n: usize)
        requires
            self.wf(),
        ensures
            n == self.failed_list().len(),
            n == self@.failed.dom().len(),
            (n == 0) == (self@.failed == Map::<Seq<char>, Seq<char>>::empty()),
    {
        proof {
            self.lemma_failed_len();
        }
        self.failed_urls.len()
    }

    /// The mapping of failures has as many URLs as the list has entries.
    pub proof fn lemma_failed_len(&self)
        requires
            self.wf(),
        ensures
            self@.failed.dom().finite(),
            self@.failed.dom().len() == self.failed_list().len(),
            (self.failed_list().len() == 0) == (self@.failed == Map::<Seq<char>, Seq<char>>::empty()),
    {
        let entries = self.failed_list();
        lemma_collected(entries);
        let keys = keys_of(entries);
        assert(keys.no_duplicates()) by {
            assert forall|i: int, j: int| 0 <= i < keys.len() && 0 <= j < keys.len() && i != j implies keys[i]
                != keys[j] by {
                if keys[i] == keys[j] {
                    lemma_ascending_distinct(keys, i, j);
                }
            }
        }
        keys.unique_seq_to_set();
        assert(keys.to_set() =~= collected(entries).dom());
        if entries.len() == 0 {
            assert(collected(entries) =~= Map::<Seq<char>, Seq<char>>::empty());
        } else {
            assert(keys[0] == entries[0].0);
            assert(collected(entries).dom().contains(entries[0].0));
        }
    }

    /// Takes down that `url` works. It is no longer held as failed.
    pub fn record_success(&mut self, url: String)
        requires
            old(self).wf(),
        ensures
            final(self).wf(),
            final(self)@.working == old(self)@.working.insert(url@),
            final(self)@.failed == old(self)@.failed.remove(url@),
    {
        let ghost working = self.working_list();
        let ghost entries = self.failed_list();
        assert(keys_of(entries) =~= texts(self.failed_urls@));
        let failed_at = search(&self.failed_urls, url.as_str());
        if failed_at.1 {
            self.failed_urls.remove(failed_at.0);
            self.failed_messages.remove(failed_at.0);
            proof {
                entries.remove_ensures(failed_at.0 as int);
                assert(self.failed_list() =~= entries.remove(failed_at.0 as int));
                lemma_entries_remove(entries, failed_at.0 as int);
                assert(entries[failed_at.0 as int].0 == url@);
                lemma_collected(self.failed_list());
                assert(!collected(self.failed_list()).dom().contains(url@));
            }
        } else {
            proof {
                lemma_collected(entries);
                assert(!collected(entries).dom().contains(url@));
                assert(collected(entries).remove(url@) =~= collected(entries));
            }
        }
        let ghost remaining = self.failed_list();
        assert(!keys_of(remaining).contains(url@)) by {
            lemma_collected(remaining);
        }
        let at = search(&self.working, url.as_str());
        if !at.1 {
            let ghost key = url@;
            self.working.insert(at.0, url);
            proof {
                working.insert_ensures(at.0 as int, key);
                assert(self.working_list() =~= working.insert(at.0 as int, key));
                lemma_insert_ascending(working, at.0 as int, key);
            }
        } else {
            assert(working.to_set().insert(url@) =~= working.to_set());
        }
        proof {
            let now = self.working_list();
            assert forall|i: int, j: int| 0 <= i < now.len() && 0 <= j < remaining.len() implies {
                #[trigger] now[i] != (#[trigger] remaining[j]).0
            } by {
                assert(keys_of(remaining)[j] == remaining[j].0);
                assert(now.to_set().contains(now[i]));
                if now[i] != url@ {
                    assert(working.to_set().contains(now[i]));
                    let a = choose|a: int| 0 <= a < working.len() && working[a] == now[i];
                    lemma_collected(remaining);
                    lemma_collected(entries);
                    assert(collected(entries).dom().contains(remaining[j].0));
                    let b = choose|b: int|
                        0 <= b < keys_of(entries).len() && keys_of(entries)[b] == remaining[j].0;
                    assert(working[a] != entries[b].0);
                }
            }
        }
    }

    /// Takes down that `url` failed, with the line that reports it, in place
    /// of an earlier failure of the same URL if there is one. For a URL that
    /// is known to work nothing is taken down.
    pub fn record_failure(&mut self, url: String, message: String)
        requires
            old(self).wf(),
        ensures
            final(self).wf(),
            final(self)@.working == old(self)@.working,
            final(self).working_list() == old(self).working_list(),
            final(self)@.failed == if old(self)@.working.contains(url@) {
                old(self)@.failed
            } else {
                old(self)@.failed.insert(url@, message@)
            },
    {
        if search(&self.working, url.as_str()).1 {
            return ;
        }
        let ghost working = self.working_list();
        let ghost entries = self.failed_list();
        let ghost entry = (url@, message@);
        assert(keys_of(entries) =~= texts(self.failed_urls@));
        let at = search(&self.failed_urls, url.as_str());
        if at.1 {
            self.failed_messages[at.0] = message;
            proof {
                assert(self.failed_list() =~= entries.update(at.0 as int, (entries[at.0 as int].0, entry.1)));
                lemma_entries_update(entries, at.0 as int, entry.1);
            }
        } else {
            self.failed_urls.insert(at.0, url);
            self.failed_messages.insert(at.0, message);
            proof {
                entries.insert_ensures(at.0 as int, entry);
                assert(self.failed_list() =~= entries.insert(at.0 as int, entry));
                lemma_entries_insert(entries, at.0 as int, entry);
            }
        }
        proof {
            let now = self.failed_list();
            lemma_collected(now);
            lemma_collected(entries);
            assert forall|i: int, j: int| 0 <= i < working.len() && 0 <= j < now.len() implies {
                #[trigger] working[i] != (#[trigger] now[j]).0
            } by {
                assert(keys_of(now)[j] == now[j].0);
                assert(collected(now).dom().contains(now[j].0));
                assert(working.to_set().contains(working[i]));
                if now[j].0 != entry.0 {
                    assert(collected(entries).dom().contains(now[j].0));
                    let b = choose|b: int|
                        0 <= b < keys_of(entries).len() && keys_of(entries)[b] == now[j].0;
                    assert(working[i] != entries[b].0);
                }
            }
        }
    }

    /// Takes down what the check of `url` has ended in, and gives the mark
    /// to print for it.
    pub fn note(&mut self, url: &str, outcome: &CheckOutcome) -> (mark: &'static str)
        requires
            old(self).wf(),
        ensures
            final(self).wf(),
            final(self)@ == old(self)@.noted(url@, outcome@),
            mark@ == progress_marker(outcome@),
    {
        match outcome {
            CheckOutcome::Success => {
                self.record_success(String::from_str(url));
            },
            CheckOutcome::Failure(error) => {
                self.record_failure(String::from_str(url), error.message(url));
            },
        }
        outcome.marker()
    }

    /// Forgets every failure. The URLs known to work stay.
    pub fn clear_failed(&mut self)
        requires
            old(self).wf(),
        ensures
            final(self).wf(),
            final(self)@.working == old(self)@.working,
            final(self).working_list() == old(self).working_list(),
            final(self)@.failed == Map::<Seq<char>, Seq<char>>::empty(),
            final(self).failed_list() == Seq::<Entry>::empty(),
    {
        self.failed_urls.clear();
        self.failed_messages.clear();
        assert(self.failed_list() =~= Seq::<Entry>::empty());
    }

    /// The URLs known to work, in ascending order.
    pub fn working_urls(&self) -> (list: Vec<String>)
        requires
            self.wf(),
        ensures
            texts(list@) == self.working_list(),
    {
        let mut list: Vec<String> = Vec::new();
        let mut i: usize = 0;
        while i < self.working.len()
            invariant
                i <= self.working.len(),
                list.len() == i,
                forall|k: int| 0 <= k < i ==> (#[trigger] list[k])@ == self.working[k]@,
            decreases self.working.len() - i,
        {
            list.push(self.working[i].clone());
            i = i + 1;
        }
        assert(texts(list@) =~= self.working_list());
        list
    }

    /// The failures, in ascending order of their URLs: each URL with the line
    /// that reports it.
    pub fn failed_entries(&self) -> (list: Vec<(String, String)>)
        requires
            self.wf(),
        ensures
            entry_texts(list@) == self.failed_list(),
    {
        let mut list: Vec<(String, String)> = Vec::new();
        let mut i: usize = 0;
        while i < self.failed_urls.len()
            invariant
                self.paired(),
                i <= self.failed_urls.len(),
                list.len() == i,
                forall|k: int|
                    0 <= k < i ==> (#[trigger] list[k]).0@ == self.failed_urls[k]@ && list[k].1@
                        == self.failed_messages[k]@,
            decreases self.failed_urls.len() - i,
        {
            list.push((self.failed_urls[i].clone(), self.failed_messages[i].clone()));
            i = i + 1;
        }
        assert(entry_texts(list@) =~= self.failed_list());
        list
    }

    /// The store that the two lists stand for: see [`assembled`]. The lists
    /// may come in any order and may repeat themselves.
    pub fn from_parts(working: Vec<String>, failed: Vec<(String, String)>) -> (results: Results)
        ensures
            results.wf(),
            results@ == assembled(texts(working@), entry_texts(failed@)),
    {
        let mut results = Results::new();
        let ghost all = texts(working@);
        let mut i: usize = 0;
        while i < working.len()
            invariant
                i <= working.len(),
                all == texts(working@),
                results.wf(),
                results@.working == all.take(i as int).to_set(),
                results@.failed == Map::<Seq<char>, Seq<char>>::empty(),
            decreases working.len() - i,
        {
            results.record_success(working[i].clone());
            proof {
                let before = all.take(i as int);
                let after = all.take(i + 1);
                assert(after =~= before.push(all[i as int]));
                assert forall|s: Seq<char>| after.to_set().contains(s) <==> before.to_set().insert(
                    all[i as int],
                ).contains(s) by {
                    if before.contains(s) {
                        let k = choose|k: int| 0 <= k < before.len() && before[k] == s;
                        assert(after[k] == s);
                    }
                    if s == all[i as int] {
                        assert(after[i as int] == s);
                    }
                }
                assert(after.to_set() =~= before.to_set().insert(all[i as int]));
                assert(results@.failed =~= Map::<Seq<char>, Seq<char>>::empty());
            }
            i = i + 1;
        }
        assert(all.take(working.len() as int) =~= all);
        let ghost known = all.to_set();
        let ghost entries = entry_texts(failed@);
        let mut j: usize = 0;
        while j < failed.len()
            invariant
                j <= failed.len(),
                entries == entry_texts(failed@),
                results.wf(),
                results@.working == known,
                results@.failed == collected(entries.take(j as int)).remove_keys(known),
            decreases failed.len() - j,
        {
            results.record_failure(failed[j].0.clone(), failed[j].1.clone());
            proof {
                let before = entries.take(j as int);
                let after = entries.take(j + 1);
                assert(after.drop_last() =~= before);
                assert(after.last() == entries[j as int]);
                assert(results@.failed =~= collected(after).remove_keys(known));
            }
            j = j + 1;
        }
        assert(entries.take(failed.len() as int) =~= entries);
        results
    }

    /// The store to begin a run with, given what could be read of the store
    /// that the run before left: its working URLs and none of its failures,
    /// or the empty store where nothing could be read.
    pub fn restore(prior: Option<Results>) -> (results: Results)
        requires
            prior matches Some(p) ==> p.wf(),
        ensures
            results.wf(),
            results@.working == match prior {
                Some(p) => p@.working,
                None => Set::<Seq<char>>::empty(),
            },
            results@.failed == Map::<Seq<char>, Seq<char>>::empty(),
    {
        match prior {
            Some(mut results) => {
                results.clear_failed();
                results
            },
            None => Results::new(),
        }
    }

    /// No URL is held as working and as failed at once.
    pub proof fn lemma_apart(&self)
        requires
            self.wf(),
        ensures
            self@.apart(),
    {
        let entries = self.failed_list();
        lemma_collected(entries);
        assert forall|url: Seq<char>|
            !(self@.working.contains(url) && self@.failed.dom().contains(url)) by {
            if self@.working.contains(url) && self@.failed.dom().contains(url) {
                let i = choose|i: int|
                    0 <= i < self.working_list().len() && self.working_list()[i] == url;
                let j = choose|j: int| 0 <= j < keys_of(entries).len() && keys_of(entries)[j] == url;
                assert(self.working_list()[i] != entries[j].0);
            }
        }
    }

    /// The verdicts decide the lists: two stores that agree on which URLs work
    /// and on which have failed with which line hold them in the same order.
    pub proof fn lemma_lists_determined(&self, other: &Results)
        requires
            self.wf(),
            other.wf(),
            self@ == other@,
        ensures
            self.working_list() == other.working_list(),
            self.failed_list() == other.failed_list(),
    {
        lemma_ascending_unique(self.working_list(), other.working_list());
        let mine = self.failed_list();
        let theirs = other.failed_list();
        lemma_collected(mine);
        lemma_collected(theirs);
        assert(keys_of(mine).to_set() =~= keys_of(theirs).to_set()) by {
            assert forall|k: Seq<char>| keys_of(mine).to_set().contains(k) <==> keys_of(
                theirs,
            ).to_set().contains(k) by {
                assert(collected(mine).dom().contains(k) <==> collected(theirs).dom().contains(k));
            }
        }
        lemma_ascending_unique(keys_of(mine), keys_of(theirs));
        assert forall|i: int| 0 <= i < mine.len() implies mine[i] == theirs[i] by {
            assert(keys_of(mine)[i] == keys_of(theirs)[i]);
            assert(collected(mine)[mine[i].0] == mine[i].1);
            assert(collected(theirs)[theirs[i].0] == theirs[i].1);
        }
        assert(mine =~= theirs);
    }

    /// Writing a store out as its two lists and reading the lists back gives
    /// the same verdicts: the same URLs work and the same URLs have failed,
    /// each with the same line.
    pub proof fn lemma_round_trip(&self)
        requires
            self.wf(),
        ensures
            assembled(self.working_list(), self.failed_list()) == self@,
    {
        let known = self.working_list().to_set();
        let entries = self.failed_list();
        lemma_collected(entries);
        assert forall|k: Seq<char>| collected(entries).dom().contains(k) implies !known.contains(
            k,
        ) by {
            let j = choose|j: int| 0 <= j < keys_of(entries).len() && keys_of(entries)[j] == k;
            if known.contains(k) {
                let i = choose|i: int|
                    0 <= i < self.working_list().len() && self.working_list()[i] == k;
                assert(self.working_list()[i] != entries[j].0);
            }
        }
        assert(collected(entries).remove_keys(known) =~= collected(entries));
    }
}

/// The characters of each URL and line of a list of failures.
pub open spec fn entry_texts(list: Seq<(String, String)>) -> Seq<Entry> {
    Seq::new(list.len(), |i: int| (list[i].0@, list[i].1@))
}

/// What is said at the end of a run.
#[derive(Debug, PartialEq, Eq)]
pub struct Report {
    /// The lines to print, in order.
    pub lines: Vec<String>,
    /// `None` where the run has succeeded; else the error that the run ends
    /// with.
    pub failure: Option<String>,
}

/// A [`Report`] as plain values.
pub struct ReportView {
    pub lines: Seq<Seq<char>>,
    pub failure: Option<Seq<char>>,
}

impl View for Report {
    type V = ReportView;

    open spec fn view(&self) -> ReportView {
        ReportView {
            lines: texts(self.lines@),
            failure: match self.failure {
                Some(text) => Some(text@),
                None => None,
            },
        }
    }
}

/// What is said at the end of a run that has these failures: an empty line,
/// then either the good news, or the line of each failure in the order of
/// the list, and then the run ends with an error that counts them.
pub open spec fn report_of(failed: Seq<Entry>) -> ReportView {
    if failed.len() == 0 {
        ReportView { lines: seq![""@, "No errors!"@], failure: None }
    } else {
        ReportView {
            lines: seq![""@] + Seq::new(failed.len(), |i: int| failed[i].1),
            failure: Some(decimal(failed.len()) + " urls with errors"@),
        }
    }
}

impl Results {
    /// What is to be said at the end of the run. The run has succeeded
    /// exactly if no URL has failed; the failures are reported in ascending
    /// order of their URLs.
    pub fn report(&self) -> (report: Report)
        requires
            self.wf(),
        ensures
            report@ == report_of(self.failed_list()),
            report.failure is None <==> self@.failed == Map::<Seq<char>, Seq<char>>::empty(),
    {
        proof {
            self.lemma_failed_len();
        }
        let mut lines: Vec<String> = Vec::new();
        lines.push(String::from_str(""));
        let count = self.failed_messages.len();
        if count == 0 {
            lines.push(String::from_str("No errors!"));
            let report = Report { lines, failure: None };
            assert(report@.lines =~= seq![""@, "No errors!"@]);
            return report;
        }
        let mut i: usize = 0;
        while i < count
            invariant
                self.paired(),
                count == self.failed_messages.len(),
                i <= count,
                lines.len() == i + 1,
                lines[0]@ == ""@,
                forall|k: int| 1 <= k <= i ==> (#[trigger] lines[k])@ == self.failed_messages[k - 1]@,
            decreases count - i,
        {
            lines.push(self.failed_messages[i].clone());
            i = i + 1;
        }
        let mut summary = to_decimal(count as u64);
        summary.append(" urls with errors");
        let report = Report { lines, failure: Some(summary) };
        proof {
            let expected = seq![""@] + Seq::new(
                self.failed_list().len(),
                |i: int| self.failed_list()[i].1,
            );
            assert(report@.lines.len() == expected.len());
            assert forall|k: int| 0 <= k < expected.len() implies report@.lines[k] == expected[k] by {
                if k > 0 {
                    assert(report.lines[k]@ == self.failed_messages[k - 1]@);
                }
            }
            assert(report@.lines =~= expected);
        }
        report
    }
}

} // verus!
