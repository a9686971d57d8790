//! Listing: which records a filter keeps, how they are cut into pages, and
//! what a page token stands for.

use vstd::prelude::*;
use crate::decimal::{decimal, lemma_decimal_round_trip, spec_parse_decimal};
use crate::registry::{RecordView, RegistryView};
use crate::text::str_eq;

verus! {

/// The page size that is used where a request names none.
pub const DEFAULT_PAGE_SIZE: i32 = 100;

/// A predicate over records.
#[derive(Clone, Copy, Debug, PartialEq, Eq, Structural)]
pub enum Filter {
    /// Keeps every record.
    All,
    /// Keeps the records that are done, or those that are not.
    Done(bool),
}

impl Filter {
    /// Whether the filter keeps a record that is done, or one that is not.
    pub open spec fn spec_keeps(self, done: bool) -> bool {
        match self {
            Filter::All => true,
            Filter::Done(want) => want == done,
        }
    }

    /// Whether the filter keeps the record.
    pub open spec fn matches(self, record: RecordView) -> bool {
        self.spec_keeps(record.done())
    }

    /// Whether the filter keeps a record that is done, or one that is not.
    pub fn keeps(self, done: bool) -> (r: bool)
        ensures
            r == self.spec_keeps(done),
    {
        match self {
            Filter::All => true,
            Filter::Done(want) => want == done,
        }
    }
}

/// The filter that a text stands for: the empty text keeps everything,
/// `done=true` and `done=false` select by completion, and no other text is
/// a filter.
pub open spec fn spec_parse_filter(s: Seq<char>) -> Option<Filter> {
    if s.len() == 0 {
        Some(Filter::All)
    } else if s == "done=true"@ {
        Some(Filter::Done(true))
    } else if s == "done=false"@ {
        Some(Filter::Done(false))
    } else {
        None
    }
}

/// Reads a filter.
pub fn parse_filter(s: &str) -> (r: Option<Filter>)
    ensures
        r == spec_parse_filter(s@),
{
    if s.is_empty() {
        Some(Filter::All)
    } else if str_eq(s, "done=true") {
        Some(Filter::Done(true))
    } else if str_eq(s, "done=false") {
        Some(Filter::Done(false))
    } else {
        None
    }
}

/// The number of records that a page may hold for a requested page size:
/// the size itself where it is positive, the default otherwise.
pub open spec fn page_limit(page_size: i32) -> int {
    if page_size <= 0 {
        DEFAULT_PAGE_SIZE as int
    } else {
        page_size as int
    }
}

impl RegistryView {
    /// Whether a record with this identifier is held.
    pub open spec fn has_id(self, id: nat) -> bool {
        exists|i: int| 0 <= i < self.records.len() && (#[trigger] self.records[i]).id == id
    }

    /// The position of the record with this identifier, where one is held.
    pub open spec fn index_of_id(self, id: nat) -> int {
        choose|i: int| 0 <= i < self.records.len() && (#[trigger] self.records[i]).id == id
    }

    /// The records from a position on that the filter keeps, oldest first.
    pub open spec fn matching_from(self, filter: Filter, start: int) -> Seq<RecordView>
        decreases self.records.len() - start,
    {
        if start < 0 || start >= self.records.len() {
            Seq::empty()
        } else if filter.matches(self.records[start]) {
            seq![self.records[start]] + self.matching_from(filter, start + 1)
        } else {
            self.matching_from(filter, start + 1)
        }
    }

    /// The position at which a page token resumes: the start for the empty
    /// token, else the position of the held record whose identifier the
    /// token writes. A token that writes no identifier, or that of a record
    /// that is not held, resumes nowhere.
    pub open spec fn page_start(self, token: Seq<char>) -> Option<int> {
        if token.len() == 0 {
            Some(0)
        } else {
            match spec_parse_decimal(token) {
                Some(id) => if self.has_id(id as nat) {
                    Some(self.index_of_id(id as nat))
                } else {
                    None
                },
                None => None,
            }
        }
    }

    /// The records of the page that starts at a position.
    pub open spec fn page(self, filter: Filter, start: int, limit: int) -> Seq<RecordView> {
        let all = self.matching_from(filter, start);
        if all.len() <= limit {
            all
        } else {
            all.subrange(0, limit)
        }
    }

    /// The token that comes with the page that starts at a position: empty
    /// after the last page, else the identifier of the first record of the
    /// next page.
    pub open spec fn next_page_token(self, filter: Filter, start: int, limit: int) -> Seq<char> {
        let all = self.matching_from(filter, start);
        if all.len() <= limit {
            Seq::empty()
        } else {
            decimal(all[limit].id)
        }
    }

    /// The records of the pages that a client receives when it starts with
    /// a token and follows the tokens it is given, for a number of pages at
    /// most, or until a page comes with the empty token.
    pub open spec fn pages_from(self, filter: Filter, token: Seq<char>, limit: int, count: nat) -> Seq<
        RecordView,
    >
        decreases count,
    {
        if count == 0 || self.page_start(token).is_none() {
            Seq::empty()
        } else {
            let start = self.page_start(token).unwrap();
            let next = self.next_page_token(filter, start, limit);
            if next.len() == 0 {
                self.page(filter, start, limit)
            } else {
                self.page(filter, start, limit) + self.pages_from(
                    filter,
                    next,
                    limit,
                    (count - 1) as nat,
                )
            }
        }
    }
}

/// In a well-formed registry an identifier is held at one position only.
pub proof fn lemma_index_of_id(v: RegistryView, i: int)
    requires
        v.wf(),
        0 <= i < v.records.len(),
    ensures
        v.has_id(v.records[i].id),
        v.index_of_id(v.records[i].id) == i,
{
    let k = v.index_of_id(v.records[i].id);
    if k < i {
        assert(v.records[k].id < v.records[i].id);
    }
    if i < k {
        assert(v.records[i].id < v.records[k].id);
    }
}

/// Where the kept records from a position on number more than `k`, the one
/// at place `k` among them is held at a position from which on the kept
/// records are the rest of them.
pub proof fn lemma_matching_position(v: RegistryView, filter: Filter, start: int, k: int) -> (j:
    int)
    requires
        0 <= start,
        0 <= k < v.matching_from(filter, start).len(),
    ensures
        start + k <= j < v.records.len(),
        v.records[j] == v.matching_from(filter, start)[k],
        v.matching_from(filter, j) == v.matching_from(filter, start).skip(k),
    decreases v.records.len() - start,
{
    let all = v.matching_from(filter, start);
    if filter.matches(v.records[start]) {
        if k == 0 {
            assert(all.skip(0) =~= all);
            start
        } else {
            let j = lemma_matching_position(v, filter, start + 1, k - 1);
            assert(v.matching_from(filter, start + 1).skip(k - 1) =~= all.skip(k));
            j
        }
    } else {
        lemma_matching_position(v, filter, start + 1, k)
    }
}

/// A page and everything from its token on make up everything from the
/// page's start on: a page with the empty token is the last, and any other
/// token resumes at a later position, with the first record that the page
/// left out.
pub proof fn lemma_page_then_rest(v: RegistryView, filter: Filter, start: int, limit: int)
    requires
        v.wf(),
        0 <= start <= v.records.len(),
        limit >= 1,
    ensures
        v.page(filter, start, limit).len() <= limit,
        v.next_page_token(filter, start, limit).len() == 0 ==> v.page(filter, start, limit)
            == v.matching_from(filter, start),
        v.next_page_token(filter, start, limit).len() > 0 ==> {
            &&& v.page_start(v.next_page_token(filter, start, limit)).is_some()
            &&& start < v.page_start(v.next_page_token(filter, start, limit)).unwrap()
                < v.records.len()
            &&& v.page(filter, start, limit) + v.matching_from(
                filter,
                v.page_start(v.next_page_token(filter, start, limit)).unwrap(),
            ) == v.matching_from(filter, start)
        },
{
    let all = v.matching_from(filter, start);
    if all.len() > limit {
        let j = lemma_matching_position(v, filter, start, limit);
        let id = v.records[j].id;
        assert(v.records[j].id < v.next_id);
        lemma_decimal_round_trip(id);
        lemma_index_of_id(v, j);
        assert(spec_parse_decimal(decimal(id)) == Some(id as u64));
        assert(all.subrange(0, limit) + all.skip(limit) =~= all);
    } else {
        if v.next_page_token(filter, start, limit).len() > 0 {
            assert(false);
        }
    }
}

/// Following the page tokens from a valid token on, for as many pages as
/// there are records from its position on, yields the kept records from
/// that position on: each once, oldest first, none left out.
pub proof fn lemma_pages_cover(
    v: RegistryView,
    filter: Filter,
    token: Seq<char>,
    limit: int,
    count: nat,
)
    requires
        v.wf(),
        limit >= 1,
        v.page_start(token).is_some(),
        count > v.records.len() - v.page_start(token).unwrap(),
    ensures
        v.pages_from(filter, token, limit, count) == v.matching_from(
            filter,
            v.page_start(token).unwrap(),
        ),
    decreases count,
{
    let start = v.page_start(token).unwrap();
    lemma_page_then_rest(v, filter, start, limit);
    let next = v.next_page_token(filter, start, limit);
    if next.len() > 0 {
        lemma_pages_cover(v, filter, next, limit, (count - 1) as nat);
    }
}

/// Listing from the empty token on covers every kept record of the
/// registry.
pub proof fn lemma_pages_cover_all(v: RegistryView, filter: Filter, limit: int)
    requires
        v.wf(),
        limit >= 1,
    ensures
        v.pages_from(filter, Seq::empty(), limit, v.records.len() + 1) == v.matching_from(
            filter,
            0,
        ),
{
    lemma_pages_cover(v, filter, Seq::empty(), limit, v.records.len() + 1);
}

} // verus!
