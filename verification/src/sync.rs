//! The sync driver: page ingestion, continuation handling, and the request
//! parameters of each fetch.
//!
//! A run starts from the checkpoint cursor, fetches one page at a time, drops
//! out-of-scope records, inserts the rest idempotently, and stops at the
//! first page that carries no continuation token.

use vstd::prelude::*;
use crate::record::AbsRow;
use crate::record::Record;
use crate::store::Store;
use crate::store::contains_id;
use crate::store::spec_insert;
use vstd::string::StringExecFns;

verus! {

/// One decoded page of the remote feed: its records and, if more pages
/// remain, the continuation token for the next fetch.
pub struct Page {
    pub records: Vec<Record>,
    pub next: Option<String>,
}

impl Page {
    /// Every record of the page is well formed.
    pub open spec fn wf(&self) -> bool {
        forall|i: int| 0 <= i < self.records@.len() ==> self.records@[i].wf()
    }
}

/// The store contents after one record is offered: unchanged for an
/// out-of-scope record, an idempotent insert of its row otherwise.
pub open spec fn ingest_step(s: Seq<AbsRow>, r: Record) -> Seq<AbsRow> {
    if r.in_scope() {
        spec_insert(s, r.spec_row())
    } else {
        s
    }
}

/// The store contents after the records are offered in order.
pub open spec fn spec_ingest(s: Seq<AbsRow>, recs: Seq<Record>) -> Seq<AbsRow>
    decreases recs.len(),
{
    if recs.len() == 0 {
        s
    } else {
        spec_ingest(ingest_step(s, recs[0]), recs.skip(1))
    }
}

/// How many of the records are in scope for the store.
pub open spec fn spec_scope_count(recs: Seq<Record>) -> nat
    decreases recs.len(),
{
    if recs.len() == 0 {
        0
    } else {
        (if recs[0].in_scope() {
            1nat
        } else {
            0nat
        }) + spec_scope_count(recs.skip(1))
    }
}

/// Offering one more record at the end ingests it into the fold so far.
proof fn lemma_ingest_snoc(s: Seq<AbsRow>, recs: Seq<Record>, r: Record)
    ensures
        spec_ingest(s, recs.push(r)) == ingest_step(spec_ingest(s, recs), r),
    decreases recs.len(),
{
    let recs2 = recs.push(r);
    assert(recs2.len() == recs.len() + 1);
    if recs.len() == 0 {
        assert(recs2[0] == r);
        assert(recs2.skip(1) =~= Seq::<Record>::empty());
        assert(spec_ingest(ingest_step(s, r), recs2.skip(1)) == ingest_step(s, r));
        assert(spec_ingest(s, recs2) == spec_ingest(ingest_step(s, recs2[0]), recs2.skip(1)));
    } else {
        assert(recs2[0] == recs[0]);
        assert(recs2.skip(1) =~= recs.skip(1).push(r));
        lemma_ingest_snoc(ingest_step(s, recs[0]), recs.skip(1), r);
        assert(spec_ingest(s, recs2) == spec_ingest(ingest_step(s, recs2[0]), recs2.skip(1)));
        assert(spec_ingest(s, recs) == spec_ingest(ingest_step(s, recs[0]), recs.skip(1)));
    }
}

/// Counting one more record at the end adds its scope bit.
proof fn lemma_scope_count_snoc(recs: Seq<Record>, r: Record)
    ensures
        spec_scope_count(recs.push(r)) == spec_scope_count(recs) + (if r.in_scope() {
            1nat
        } else {
            0nat
        }),
    decreases recs.len(),
{
    let recs2 = recs.push(r);
    assert(recs2.len() == recs.len() + 1);
    if recs.len() == 0 {
        assert(recs2[0] == r);
        assert(recs2.skip(1) =~= Seq::<Record>::empty());
        assert(spec_scope_count(recs2.skip(1)) == 0);
        assert(spec_scope_count(recs2) == (if recs2[0].in_scope() {
            1nat
        } else {
            0nat
        }) + spec_scope_count(recs2.skip(1)));
    } else {
        assert(recs2[0] == recs[0]);
        assert(recs2.skip(1) =~= recs.skip(1).push(r));
        lemma_scope_count_snoc(recs.skip(1), r);
        assert(spec_scope_count(recs2) == (if recs2[0].in_scope() {
            1nat
        } else {
            0nat
        }) + spec_scope_count(recs2.skip(1)));
        assert(spec_scope_count(recs) == (if recs[0].in_scope() {
            1nat
        } else {
            0nat
        }) + spec_scope_count(recs.skip(1)));
    }
}

/// Law: redelivered records change nothing. If every in-scope record's id is
/// already stored, offering the whole sequence leaves the store as it was.
pub proof fn lemma_redelivery_no_op(s: Seq<AbsRow>, recs: Seq<Record>)
    requires
        forall|i: int|
            0 <= i < recs.len() && #[trigger] recs[i].in_scope() ==> contains_id(s, recs[i].id),
    ensures
        spec_ingest(s, recs) == s,
    decreases recs.len(),
{
    if recs.len() > 0 {
        assert(recs[0].in_scope() ==> contains_id(s, recs[0].id));
        assert(ingest_step(s, recs[0]) == s);
        assert(forall|i: int|
            0 <= i < recs.skip(1).len() && #[trigger] recs.skip(1)[i].in_scope()
                ==> contains_id(s, recs.skip(1)[i].id));
        lemma_redelivery_no_op(s, recs.skip(1));
    }
}

/// Offers every record of one page to the store: out-of-scope records are
/// dropped, the rest are inserted idempotently. Returns how many records of
/// the page were in scope.
pub fn process_page(store: &mut Store, page: &Page) -> (count: usize)
    requires
        old(store).wf(),
        page.wf(),
    ensures
        final(store)@ == spec_ingest(old(store)@, page.records@),
        final(store).wf(),
        count == spec_scope_count(page.records@),
{
    let ghost orig = store@;
    let mut count: usize = 0;
    let mut i: usize = 0;
    while i < page.records.len()
        invariant
            0 <= i <= page.records@.len(),
            count <= i,
            page.wf(),
            store.wf(),
            store@ == spec_ingest(orig, page.records@.take(i as int)),
            count == spec_scope_count(page.records@.take(i as int)),
        decreases page.records@.len() - i,
    {
        let rec = &page.records[i];
        proof {
            assert(page.records@.take(i as int + 1) =~= page.records@.take(i as int).push(
                page.records@[i as int],
            ));
            lemma_ingest_snoc(orig, page.records@.take(i as int), page.records@[i as int]);
            lemma_scope_count_snoc(page.records@.take(i as int), page.records@[i as int]);
        }
        match rec.to_row() {
            Some(row) => {
                store.insert(row);
                count = count + 1;
            },
            None => {
            },
        }
        i = i + 1;
    }
    proof {
        assert(page.records@.take(page.records@.len() as int) =~= page.records@);
    }
    count
}

/// The position of the first page without a continuation token, if any.
pub open spec fn first_stop(pages: Seq<Page>) -> Option<int>
    decreases pages.len(),
{
    if pages.len() == 0 {
        None
    } else if pages[0].next is None {
        Some(0)
    } else {
        match first_stop(pages.skip(1)) {
            Some(k) => Some(k + 1),
            None => None,
        }
    }
}

/// `first_stop` is the least index whose page carries no token.
proof fn lemma_first_stop_at(pages: Seq<Page>, i: int)
    requires
        0 <= i < pages.len(),
        forall|j: int| 0 <= j < i ==> pages[j].next is Some,
        pages[i].next is None,
    ensures
        first_stop(pages) == Some(i),
    decreases i,
{
    if i > 0 {
        lemma_first_stop_at(pages.skip(1), i - 1);
    }
}

/// A feed whose every page carries a token never stops.
proof fn lemma_first_stop_none(pages: Seq<Page>)
    requires
        forall|j: int| 0 <= j < pages.len() ==> pages[j].next is Some,
    ensures
        first_stop(pages) is None,
    decreases pages.len(),
{
    if pages.len() > 0 {
        lemma_first_stop_none(pages.skip(1));
    }
}

/// The store contents after the pages' records are offered in order.
pub open spec fn spec_ingest_pages(s: Seq<AbsRow>, pages: Seq<Page>) -> Seq<AbsRow>
    decreases pages.len(),
{
    if pages.len() == 0 {
        s
    } else {
        spec_ingest_pages(spec_ingest(s, pages[0].records@), pages.skip(1))
    }
}

/// Offering one more page at the end ingests its records into the fold so
/// far.
proof fn lemma_ingest_pages_snoc(s: Seq<AbsRow>, pages: Seq<Page>, p: Page)
    ensures
        spec_ingest_pages(s, pages.push(p)) == spec_ingest(
            spec_ingest_pages(s, pages),
            p.records@,
        ),
    decreases pages.len(),
{
    let pages2 = pages.push(p);
    assert(pages2.len() == pages.len() + 1);
    if pages.len() == 0 {
        assert(pages2[0] == p);
        assert(pages2.skip(1) =~= Seq::<Page>::empty());
        assert(spec_ingest_pages(spec_ingest(s, p.records@), pages2.skip(1)) == spec_ingest(
            s,
            p.records@,
        ));
        assert(spec_ingest_pages(s, pages2) == spec_ingest_pages(
            spec_ingest(s, pages2[0].records@),
            pages2.skip(1),
        ));
    } else {
        assert(pages2[0] == pages[0]);
        assert(pages2.skip(1) =~= pages.skip(1).push(p));
        lemma_ingest_pages_snoc(spec_ingest(s, pages[0].records@), pages.skip(1), p);
        assert(spec_ingest_pages(s, pages2) == spec_ingest_pages(
            spec_ingest(s, pages2[0].records@),
            pages2.skip(1),
        ));
        assert(spec_ingest_pages(s, pages) == spec_ingest_pages(
            spec_ingest(s, pages[0].records@),
            pages.skip(1),
        ));
    }
}

/// Drives one run over a feed already decoded into pages: page `i` is what
/// fetch `i` returns. Pages are processed in order until the first one
/// without a continuation token.
///
/// Returns how many fetches the run issued, or `None` if every supplied page
/// carried a token, so that the feed was exhausted before the run could
/// finish.
pub fn run_pages(store: &mut Store, pages: &Vec<Page>) -> (fetched: Option<usize>)
    requires
        old(store).wf(),
        forall|i: int| 0 <= i < pages@.len() ==> #[trigger] pages@[i].wf(),
    ensures
        final(store).wf(),
        fetched matches Some(n) ==> {
            &&& 1 <= n <= pages@.len()
            &&& first_stop(pages@) == Some(n - 1)
            &&& final(store)@ == spec_ingest_pages(old(store)@, pages@.take(n as int))
        },
        fetched is None ==> {
            &&& first_stop(pages@) is None
            &&& final(store)@ == spec_ingest_pages(old(store)@, pages@)
        },
{
    let ghost orig = store@;
    let mut i: usize = 0;
    while i < pages.len()
        invariant
            orig == old(store)@,
            0 <= i <= pages@.len(),
            store.wf(),
            forall|j: int| 0 <= j < pages@.len() ==> #[trigger] pages@[j].wf(),
            forall|j: int| 0 <= j < i ==> pages@[j].next is Some,
            store@ == spec_ingest_pages(orig, pages@.take(i as int)),
        decreases pages@.len() - i,
    {
        let page = &pages[i];
        proof {
            assert(pages@.take(i as int + 1) =~= pages@.take(i as int).push(pages@[i as int]));
            lemma_ingest_pages_snoc(orig, pages@.take(i as int), pages@[i as int]);
        }
        process_page(store, page);
        if page.next.is_none() {
            proof {
                lemma_first_stop_at(pages@, i as int);
            }
            return Some(i + 1);
        }
        i = i + 1;
    }
    proof {
        lemma_first_stop_none(pages@);
        assert(pages@.take(pages@.len() as int) =~= pages@);
    }
    None
}

/// The driver's control state: fetching with an optional continuation token,
/// or finished.
pub enum SyncState {
    Fetching { token: Option<String> },
    Done,
}

impl SyncState {
    /// The state a fresh run starts in: fetching, with no token yet.
    pub fn start() -> (s: SyncState)
        ensures
            s matches SyncState::Fetching { token } && token is None,
    {
        SyncState::Fetching { token: None }
    }

    /// The transition a decoded page induces: keep fetching with the page's
    /// token when one is present, finish otherwise.
    pub fn advance(next: Option<String>) -> (s: SyncState)
        ensures
            next matches Some(t) ==> (s matches SyncState::Fetching { token } && token
                == Some(t)),
            next is None ==> s is Done,
    {
        match next {
            Some(t) => SyncState::Fetching { token: Some(t) },
            None => SyncState::Done,
        }
    }
}

/// Builds the query parameters of one fetch: the fixed action, format, list,
/// direction, page size and field selections, the checkpoint cursor as the
/// lower bound, and the continuation token when one is present.
pub fn build_params(cursor: &str, token: &Option<String>) -> (r: Vec<(String, String)>)
    ensures
        r@.len() == (if token is Some {
            8int
        } else {
            7int
        }),
        r@[0].0@ == "action"@ && r@[0].1@ == "query"@,
        r@[1].0@ == "format"@ && r@[1].1@ == "json"@,
        r@[2].0@ == "list"@ && r@[2].1@ == "blocks"@,
        r@[3].0@ == "bkdir"@ && r@[3].1@ == "newer"@,
        r@[4].0@ == "bklimit"@ && r@[4].1@ == "max"@,
        r@[5].0@ == "bkprop"@ && r@[5].1@ == "id|timestamp|expiry|range"@,
        r@[6].0@ == "bkstart"@ && r@[6].1@ == cursor@,
        token matches Some(t) ==> r@[7].0@ == "bkcontinue"@ && r@[7].1@ == t@,
{
    let mut r: Vec<(String, String)> = Vec::new();
    r.push((String::from_str("action"), String::from_str("query")));
    r.push((String::from_str("format"), String::from_str("json")));
    r.push((String::from_str("list"), String::from_str("blocks")));
    r.push((String::from_str("bkdir"), String::from_str("newer")));
    r.push((String::from_str("bklimit"), String::from_str("max")));
    r.push((String::from_str("bkprop"), String::from_str("id|timestamp|expiry|range")));
    r.push((String::from_str("bkstart"), String::from_str(cursor)));
    match token {
        Some(t) => {
            r.push((String::from_str("bkcontinue"), t.clone()));
        },
        None => {
        },
    }
    r
}

} // verus!
