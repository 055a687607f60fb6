use vstd::prelude::*;

use crate::text::{decimal, decimal_string};

verus! {

/// Points earned in one game.
#[derive(Debug, Clone, Copy, PartialEq, Eq, PartialOrd, Ord)]
pub struct Score(pub u32);

impl Score {
    pub fn new(value: u32) -> (s: Score)
        ensures
            s.0 == value,
    {
        Score(value)
    }

    pub fn value(&self) -> (v: u32)
        ensures
            v == self.0,
    {
        self.0
    }

    /// The score as shown to the player: its decimal notation.
    pub fn to_string(&self) -> (s: String)
        ensures
            s@ == decimal(self.0 as nat),
    {
        decimal_string(self.0 as u64)
    }

    /// `self += other`; the sum must fit in a `u32`.
    pub fn add_assign(&mut self, other: Score)
        requires
            old(self).0 + other.0 <= u32::MAX,
        ensures
            final(self).0 == old(self).0 + other.0,
    {
        self.0 = self.0 + other.0;
    }
}

impl Default for Score {
    fn default() -> (s: Score)
        ensures
            s.0 == 0,
    {
        Score(0)
    }
}

impl From<u32> for Score {
    fn from(value: u32) -> (s: Score) {
        Score(value)
    }
}

impl vstd::std_specs::convert::FromSpecImpl<u32> for Score {
    open spec fn obeys_from_spec() -> bool {
        true
    }

    open spec fn from_spec(v: u32) -> Score {
        Score(v)
    }
}

/// Event carrying points to add to the running score.
#[derive(Debug)]
pub struct AddScoreEvent(pub Score);

/// Sum of the points carried by a sequence of events.
pub open spec fn total_points(events: Seq<AddScoreEvent>) -> nat
    decreases events.len(),
{
    if events.len() == 0 {
        0
    } else {
        total_points(events.drop_last()) + events.last().0.0 as nat
    }
}

/// Adds the points of all pending events to the running score.
pub fn update_score(events: &Vec<AddScoreEvent>, score: &mut Score)
    requires
        old(score).0 + total_points(events@) <= u32::MAX,
    ensures
        final(score).0 == old(score).0 + total_points(events@),
{
    let mut sum: u32 = 0;
    let mut i: usize = 0;
    while i < events.len()
        invariant
            i <= events.len(),
            sum == total_points(events@.take(i as int)),
            score.0 + total_points(events@) <= u32::MAX,
        decreases events.len() - i,
    {
        proof {
            lemma_total_points_prefix_bound(events@, i as int + 1);
            assert(events@.take(i as int + 1).drop_last() =~= events@.take(i as int));
        }
        sum = sum + events[i].0.0;
        i = i + 1;
    }
    proof {
        assert(events@.take(events.len() as int) =~= events@);
    }
    if sum > 0 {
        score.add_assign(Score(sum));
    }
}

/// The points of a prefix never exceed those of the whole sequence.
proof fn lemma_total_points_prefix_bound(events: Seq<AddScoreEvent>, n: int)
    requires
        0 <= n <= events.len(),
    ensures
        total_points(events.take(n)) <= total_points(events),
    decreases events.len(),
{
    if n < events.len() {
        assert(events.drop_last().take(n) =~= events.take(n));
        lemma_total_points_prefix_bound(events.drop_last(), n);
    } else {
        assert(events.take(n) =~= events);
    }
}


/// A moment in UTC: whole seconds since the Unix epoch and the nanoseconds
/// within that second.
#[derive(Debug, Clone, Copy, PartialEq, Eq)]
pub struct Timestamp {
    pub secs: i64,
    pub nanos: u32,
}

/// Reads the current UTC time through `chrono::Utc::now`, split into the
/// seconds (`DateTime::timestamp`) and sub-second nanoseconds
/// (`DateTime::timestamp_subsec_nanos`). The moment returned depends on the
/// clock and is not stated. `Utc::now` builds it from the system clock's
/// duration since the epoch (panicking on a clock set before 1970), so the
/// seconds are not negative and the nanoseconds stay below one billion.
#[verifier::external_body]
fn utc_now() -> (t: Timestamp)
    ensures
        t.secs >= 0,
        t.nanos < 1_000_000_000,
{
    let now = chrono::Utc::now();
    Timestamp { secs: now.timestamp(), nanos: now.timestamp_subsec_nanos() }
}

/// One entry of the highscore board.
#[derive(Debug)]
pub struct HighScore {
    score: Score,
    name: String,
    time: Timestamp,
}

impl HighScore {
    pub closed spec fn points(self) -> u32 {
        self.score.0
    }

    pub closed spec fn name_view(self) -> Seq<char> {
        self.name@
    }

    pub closed spec fn moment(self) -> Timestamp {
        self.time
    }

    /// A new entry for `score` by `name`, stamped with the current time.
    pub fn new(score: Score, name: &str) -> (h: HighScore)
        ensures
            h.points() == score.0,
            h.name_view() == name@,
            h.moment().secs >= 0,
            h.moment().nanos < 1_000_000_000,
    {
        HighScore { score, name: name.to_owned(), time: utc_now() }
    }

    /// An entry with a known time, as read back from storage.
    pub fn with_time(score: Score, name: String, time: Timestamp) -> (h: HighScore)
        ensures
            h.points() == score.0,
            h.name_view() == name@,
            h.moment() == time,
    {
        HighScore { score, name, time }
    }

    pub fn score(&self) -> (s: Score)
        ensures
            s.0 == self.points(),
    {
        self.score
    }

    pub fn name(&self) -> (n: &String)
        ensures
            n@ == self.name_view(),
    {
        &self.name
    }

    pub fn time(&self) -> (t: &Timestamp)
        ensures
            *t == self.moment(),
    {
        &self.time
    }
}

/// Records ordered from the highest score to the lowest.
pub open spec fn sorted_desc(s: Seq<HighScore>) -> bool {
    forall|i: int, j: int| 0 <= i < j < s.len() ==> #[trigger] s[i].points() >= #[trigger] s[j].points()
}

/// Where a score of `points` enters the board: the first record whose score
/// it reaches (ties go in front), or the end when it reaches none.
pub open spec fn insert_index(s: Seq<HighScore>, points: u32) -> int
    decreases s.len(),
{
    if s.len() == 0 {
        0
    } else if points >= s[0].points() {
        0
    } else {
        1 + insert_index(s.drop_first(), points)
    }
}

proof fn lemma_insert_index_bounds(s: Seq<HighScore>, points: u32)
    ensures
        0 <= insert_index(s, points) <= s.len(),
        forall|k: int| 0 <= k < insert_index(s, points) ==> points < #[trigger] s[k].points(),
        insert_index(s, points) < s.len() ==> points >= s[insert_index(s, points)].points(),
    decreases s.len(),
{
    if s.len() > 0 && !(points >= s[0].points()) {
        lemma_insert_index_bounds(s.drop_first(), points);
        assert forall|k: int| 0 <= k < insert_index(s, points) implies points < #[trigger] s[k].points() by {
            if k > 0 {
                assert(s[k] == s.drop_first()[k - 1]);
            }
        }
    }
}

/// The first index `i` below which every record beats `points` and at which
/// `points` reaches the record (or the end) is `insert_index`.
proof fn lemma_insert_index_unique(s: Seq<HighScore>, points: u32, i: int)
    requires
        0 <= i <= s.len(),
        forall|k: int| 0 <= k < i ==> points < #[trigger] s[k].points(),
        i < s.len() ==> points >= s[i].points(),
    ensures
        insert_index(s, points) == i,
    decreases s.len(),
{
    if s.len() > 0 && i > 0 {
        assert(points < s[0].points());
        assert forall|k: int| 0 <= k < i - 1 implies points < #[trigger] s.drop_first()[k].points() by {
            assert(s.drop_first()[k] == s[k + 1]);
        }
        lemma_insert_index_unique(s.drop_first(), points, i - 1);
    }
}

/// The board of best scores, highest first, holding at most `max_records`.
#[derive(Debug)]
pub struct HighScoreRepository {
    scores: Vec<HighScore>,
    max_records: u8,
}

/// What `position` answers for a board `s` of capacity `cap`.
pub open spec fn position_spec(s: Seq<HighScore>, cap: nat, points: u32) -> Option<usize> {
    let idx = insert_index(s, points);
    if idx < s.len() {
        Some(idx as usize)
    } else if s.len() == 0 {
        Some(0)
    } else if cap > s.len() {
        Some(s.len() as usize)
    } else {
        None
    }
}

/// The records after `push` on a board `s` of capacity `cap`.
pub open spec fn pushed_records(s: Seq<HighScore>, cap: nat, h: HighScore) -> Seq<HighScore> {
    let inserted = s.insert(insert_index(s, h.points()), h);
    if cap <= inserted.len() {
        inserted.take(cap as int)
    } else {
        inserted
    }
}

/// What `push` answers on a board of capacity `cap`.
pub open spec fn push_result(s: Seq<HighScore>, cap: nat, points: u32) -> Result<usize, ()> {
    let idx = insert_index(s, points);
    if idx < cap {
        Ok(idx as usize)
    } else {
        Err(())
    }
}

impl HighScoreRepository {
    pub closed spec fn records(&self) -> Seq<HighScore> {
        self.scores@
    }

    pub closed spec fn capacity(&self) -> nat {
        self.max_records as nat
    }

    /// Sorted highest first and within capacity.
    pub open spec fn wf(&self) -> bool {
        &&& sorted_desc(self.records())
        &&& self.records().len() <= self.capacity()
    }

    /// An empty board for at most `max_records` records.
    pub fn with_capacity(max_records: u8) -> (r: HighScoreRepository)
        ensures
            r.records() == Seq::<HighScore>::empty(),
            r.capacity() == max_records as nat,
            r.wf(),
    {
        HighScoreRepository { scores: Vec::with_capacity(max_records as usize), max_records }
    }

    pub fn count(&self) -> (n: usize)
        ensures
            n == self.records().len(),
    {
        self.scores.len()
    }

    pub fn capacity_u8(&self) -> (c: u8)
        ensures
            c as nat == self.capacity(),
    {
        self.max_records
    }

    /// Iterates over the records, highest first.
    pub fn iter(&self) -> (it: std::slice::Iter<'_, HighScore>)
        ensures
            vstd::std_specs::slice::into_iter_elts(it) == self.records(),
    {
        let sl = self.scores.as_slice();
        let it = sl.iter();
        proof {
            vstd::std_specs::slice::axiom_spec_slice_iter(sl);
            assert(sl@.as_ref().unref() =~= sl@);
        }
        it
    }

    /// The records, highest first.
    pub fn records_slice(&self) -> (s: &[HighScore])
        ensures
            s@ == self.records(),
    {
        self.scores.as_slice()
    }

    /// Index at which `score` would enter the board, if it would.
    pub fn position(&self, score: &Score) -> (p: Option<usize>)
        ensures
            p == position_spec(self.records(), self.capacity(), score.0),
    {
        let idx = self.find_insert_index(score.0);
        if idx < self.scores.len() {
            Some(idx)
        } else if self.scores.len() == 0 {
            Some(0)
        } else if (self.max_records as usize) > self.scores.len() {
            Some(self.scores.len())
        } else {
            None
        }
    }

    fn find_insert_index(&self, points: u32) -> (idx: usize)
        ensures
            idx == insert_index(self.records(), points),
    {
        let mut i: usize = 0;
        while i < self.scores.len()
            invariant
                i <= self.scores.len(),
                forall|k: int| 0 <= k < i ==> points < #[trigger] self.scores@[k].score.0,
            decreases self.scores.len() - i,
        {
            if points >= self.scores[i].score.0 {
                proof {
                    lemma_insert_index_unique(self.records(), points, i as int);
                }
                return i;
            }
            i = i + 1;
        }
        proof {
            lemma_insert_index_unique(self.records(), points, i as int);
        }
        i
    }

    /// The lowest score on the board, or zero when the board is empty.
    pub fn lowest_score(&self) -> (s: Score)
        ensures
            s.0 == (if self.records().len() == 0 { 0 } else { self.records().last().points() }),
    {
        if self.scores.len() == 0 {
            Score::new(u32::MIN)
        } else {
            self.scores[self.scores.len() - 1].score
        }
    }

    /// Whether a record with `score` would stay on the board when pushed.
    pub fn accepts(&self, score: Score) -> (b: bool)
        ensures
            b == (push_result(self.records(), self.capacity(), score.0) is Ok),
    {
        let idx = self.find_insert_index(score.0);
        idx < self.max_records as usize
    }

    /// Enters `score` on the board in front of every record it reaches,
    /// dropping records beyond capacity; `Ok` with its index when it stays.
    pub fn push(&mut self, score: HighScore) -> (r: Result<usize, ()>)
        ensures
            final(self).records() == pushed_records(old(self).records(), old(self).capacity(), score),
            final(self).capacity() == old(self).capacity(),
            r == push_result(old(self).records(), old(self).capacity(), score.points()),
            old(self).wf() ==> final(self).wf(),
    {
        let ghost old_records = self.scores@;
        let points = score.score.0;
        let index = self.find_insert_index(points);
        proof {
            lemma_insert_index_bounds(old_records, points);
        }
        self.scores.insert(index, score);
        self.scores.truncate(self.max_records as usize);
        proof {
            lemma_push_sorted(old_records, self.max_records as nat, score);
        }
        if self.scores.len() > index {
            Ok(index)
        } else {
            Err(())
        }
    }
}

proof fn lemma_push_sorted(s: Seq<HighScore>, cap: nat, h: HighScore)
    ensures
        sorted_desc(s) ==> sorted_desc(pushed_records(s, cap, h)),
        pushed_records(s, cap, h).len() <= cap || cap > s.len(),
        pushed_records(s, cap, h).len() > insert_index(s, h.points()) <==> insert_index(s, h.points()) < cap,
{
    lemma_insert_index_bounds(s, h.points());
    let idx = insert_index(s, h.points());
    let ins = s.insert(idx, h);
    assert(ins.len() == s.len() + 1);
    assert forall|k: int| 0 <= k < ins.len() implies #[trigger] ins[k] == (if k < idx { s[k] } else if k == idx { h } else { s[k - 1] }) by {}
    if sorted_desc(s) {
        assert forall|i: int, j: int| 0 <= i < j < ins.len() implies #[trigger] ins[i].points() >= #[trigger] ins[j].points() by {
            if j < idx {
            } else if j == idx {
                assert(h.points() < s[i].points());
            } else if i < idx {
                assert(h.points() < s[i].points());
                if idx < s.len() {
                    assert(s[i].points() >= s[j - 1].points());
                }
            } else if i == idx {
                assert(h.points() >= s[idx].points());
                if j - 1 > idx {
                    assert(s[idx].points() >= s[j - 1].points());
                }
            } else {
            }
        }
        let res = pushed_records(s, cap, h);
        assert forall|i: int, j: int| 0 <= i < j < res.len() implies #[trigger] res[i].points() >= #[trigger] res[j].points() by {
            assert(res[i] == ins[i]);
            assert(res[j] == ins[j]);
        }
    }
}


/// The first index whose record scores below `points`, or the end: a record
/// inserted there goes behind every record scoring at least as much.
pub open spec fn ties_end(s: Seq<HighScore>, points: u32) -> int
    decreases s.len(),
{
    if s.len() == 0 {
        0
    } else if s[0].points() < points {
        0
    } else {
        1 + ties_end(s.drop_first(), points)
    }
}

/// The records ordered highest first, records with equal scores keeping
/// their relative order from the input (a stable sort).
pub open spec fn sort_desc(s: Seq<HighScore>) -> Seq<HighScore>
    decreases s.len(),
{
    if s.len() == 0 {
        s
    } else {
        let r = sort_desc(s.drop_last());
        r.insert(ties_end(r, s.last().points()), s.last())
    }
}

/// The records of `s` that score exactly `points`, in order.
pub open spec fn with_points(s: Seq<HighScore>, points: u32) -> Seq<HighScore> {
    s.filter(|h: HighScore| h.points() == points)
}

proof fn lemma_ties_end_bounds(s: Seq<HighScore>, points: u32)
    ensures
        0 <= ties_end(s, points) <= s.len(),
        forall|k: int| 0 <= k < ties_end(s, points) ==> #[trigger] s[k].points() >= points,
        ties_end(s, points) < s.len() ==> s[ties_end(s, points)].points() < points,
    decreases s.len(),
{
    if s.len() > 0 && !(s[0].points() < points) {
        lemma_ties_end_bounds(s.drop_first(), points);
        assert forall|k: int| 0 <= k < ties_end(s, points) implies #[trigger] s[k].points() >= points by {
            if k > 0 {
                assert(s[k] == s.drop_first()[k - 1]);
            }
        }
    }
}

proof fn lemma_ties_end_unique(s: Seq<HighScore>, points: u32, i: int)
    requires
        0 <= i <= s.len(),
        forall|k: int| 0 <= k < i ==> #[trigger] s[k].points() >= points,
        i < s.len() ==> s[i].points() < points,
    ensures
        ties_end(s, points) == i,
    decreases s.len(),
{
    if s.len() > 0 && i > 0 {
        assert(s[0].points() >= points);
        assert forall|k: int| 0 <= k < i - 1 implies #[trigger] s.drop_first()[k].points() >= points by {
            assert(s.drop_first()[k] == s[k + 1]);
        }
        lemma_ties_end_unique(s.drop_first(), points, i - 1);
    }
}

/// Inserting behind the ties keeps a sorted sequence sorted.
proof fn lemma_insert_behind_ties_sorted(r: Seq<HighScore>, h: HighScore)
    requires
        sorted_desc(r),
    ensures
        sorted_desc(r.insert(ties_end(r, h.points()), h)),
{
    lemma_ties_end_bounds(r, h.points());
    let k = ties_end(r, h.points());
    let ins = r.insert(k, h);
    assert forall|x: int| 0 <= x < ins.len() implies #[trigger] ins[x] == (if x < k { r[x] } else if x == k { h } else { r[x - 1] }) by {}
    assert forall|i: int, j: int| 0 <= i < j < ins.len() implies #[trigger] ins[i].points() >= #[trigger] ins[j].points() by {
        if j < k {
        } else if j == k {
            assert(r[i].points() >= h.points());
        } else if i < k {
            assert(r[i].points() >= r[j - 1].points());
        } else if i == k {
            assert(r[k].points() < h.points());
            if j - 1 > k {
                assert(r[k].points() >= r[j - 1].points());
            }
        } else {
        }
    }
}

/// The stable sort orders its records highest first.
pub proof fn law_sort_desc_sorted(s: Seq<HighScore>)
    ensures
        sorted_desc(sort_desc(s)),
        sort_desc(s).len() == s.len(),
    decreases s.len(),
{
    if s.len() > 0 {
        law_sort_desc_sorted(s.drop_last());
        let r = sort_desc(s.drop_last());
        lemma_ties_end_bounds(r, s.last().points());
        lemma_insert_behind_ties_sorted(r, s.last());
    }
}

/// The stable sort keeps exactly the records it was given.
pub proof fn law_sort_desc_permutation(s: Seq<HighScore>)
    ensures
        sort_desc(s).to_multiset() =~= s.to_multiset(),
    decreases s.len(),
{
    broadcast use vstd::seq_lib::group_to_multiset_ensures;
    if s.len() > 0 {
        law_sort_desc_permutation(s.drop_last());
        law_sort_desc_sorted(s.drop_last());
        let r = sort_desc(s.drop_last());
        let k = ties_end(r, s.last().points());
        lemma_ties_end_bounds(r, s.last().points());
        let a = r.take(k);
        let b = r.skip(k);
        assert(r =~= a + b);
        assert(r.insert(k, s.last()) =~= a.push(s.last()) + b);
        vstd::seq_lib::lemma_multiset_commutative(a.push(s.last()), b);
        vstd::seq_lib::lemma_multiset_commutative(a, b);
        assert(s =~= s.drop_last().push(s.last()));
    }
}

/// Records with equal scores keep their relative order under the sort.
pub proof fn law_sort_desc_stable(s: Seq<HighScore>, points: u32)
    ensures
        with_points(sort_desc(s), points) =~= with_points(s, points),
    decreases s.len(),
{
    broadcast use vstd::seq_lib::group_filter_ensures;
    let pred = |h: HighScore| h.points() == points;
    if s.len() > 0 {
        law_sort_desc_stable(s.drop_last(), points);
        law_sort_desc_sorted(s.drop_last());
        let r = sort_desc(s.drop_last());
        let h = s.last();
        let k = ties_end(r, h.points());
        lemma_ties_end_bounds(r, h.points());
        let a = r.take(k);
        let b = r.skip(k);
        assert(r =~= a + b);
        assert(r.insert(k, h) =~= a + (seq![h] + b));
        Seq::filter_distributes_over_add(a, b, pred);
        Seq::filter_distributes_over_add(a, seq![h] + b, pred);
        Seq::filter_distributes_over_add(seq![h], b, pred);
        assert(s =~= s.drop_last().push(h));
        s.drop_last().lemma_filter_push(h, pred);
        Seq::<HighScore>::empty().lemma_filter_push(h, pred);
        assert(seq![h] =~= Seq::<HighScore>::empty().push(h));
        reveal(Seq::filter);
        assert(Seq::<HighScore>::empty().filter(pred) =~= Seq::<HighScore>::empty());
        if h.points() == points {
            assert forall|i: int| 0 <= i < b.len() implies !pred(#[trigger] b[i]) by {
                assert(b[i] == r[k + i]);
                assert(r[k].points() < h.points());
                if i > 0 {
                    assert(r[k].points() >= r[k + i].points());
                }
            }
            b.lemma_all_neg_filter_empty(pred);
            assert(b.filter(pred) =~= Seq::<HighScore>::empty());
            assert(a.filter(pred) + (seq![h] + Seq::<HighScore>::empty()) =~= a.filter(pred).push(h));
            assert(a.filter(pred) + Seq::<HighScore>::empty() =~= a.filter(pred));
        } else {
            assert(a.filter(pred) + (Seq::<HighScore>::empty() + b.filter(pred)) =~= a.filter(pred) + b.filter(pred));
        }
    }
}


/// Index behind the last record in `r` that scores at least `points`.
fn find_ties_end(r: &Vec<HighScore>, points: u32) -> (idx: usize)
    ensures
        idx == ties_end(r@, points),
{
    let mut i: usize = 0;
    while i < r.len()
        invariant
            i <= r.len(),
            forall|k: int| 0 <= k < i ==> #[trigger] r@[k].points() >= points,
        decreases r.len() - i,
    {
        if r[i].score.0 < points {
            proof {
                lemma_ties_end_unique(r@, points, i as int);
            }
            return i;
        }
        i = i + 1;
    }
    proof {
        lemma_ties_end_unique(r@, points, i as int);
    }
    i
}

/// Orders records highest first; records with equal scores keep their order.
pub fn sort_by_score_desc(records: Vec<HighScore>) -> (sorted: Vec<HighScore>)
    ensures
        sorted@ == sort_desc(records@),
{
    let ghost orig = records@;
    let mut rest = records;
    let mut sorted: Vec<HighScore> = Vec::new();
    let mut i: usize = 0;
    let n = rest.len();
    while rest.len() > 0
        invariant
            n == orig.len(),
            i + rest.len() == n,
            rest@ == orig.skip(i as int),
            sorted@ == sort_desc(orig.take(i as int)),
        decreases rest.len(),
    {
        let h = rest.remove(0);
        proof {
            assert(orig.take(i as int + 1).drop_last() =~= orig.take(i as int));
            assert(orig.take(i as int + 1).last() == h);
            assert(rest@ =~= orig.skip(i as int + 1));
        }
        let k = find_ties_end(&sorted, h.score.0);
        proof {
            lemma_ties_end_bounds(sorted@, h.score.0);
        }
        sorted.insert(k, h);
        i = i + 1;
    }
    proof {
        assert(orig.take(i as int) =~= orig);
    }
    sorted
}

/// The board kept after loading: the stored records sorted highest first
/// (stably) and cut down to `max_records`.
pub open spec fn normalized_records(s: Seq<HighScore>, max_records: u8) -> Seq<HighScore> {
    let sorted = sort_desc(s);
    if max_records as nat <= sorted.len() {
        sorted.take(max_records as int)
    } else {
        sorted
    }
}

impl HighScoreRepository {
    /// A board built from records read back from storage, with the capacity
    /// that the settings ask for.
    pub fn from_records(records: Vec<HighScore>, max_records: u8) -> (r: HighScoreRepository)
        ensures
            r.records() == normalized_records(records@, max_records),
            r.capacity() == max_records as nat,
            r.wf(),
    {
        let mut scores = sort_by_score_desc(records);
        proof {
            law_sort_desc_sorted(records@);
        }
        scores.truncate(max_records as usize);
        HighScoreRepository { scores, max_records }
    }

    /// Hands the records over, highest first.
    pub fn into_records(self) -> (v: Vec<HighScore>)
        ensures
            v@ == self.records(),
    {
        self.scores
    }
}

/// Sorting records that are already ordered highest first leaves them as
/// they are.
pub proof fn law_sort_desc_keeps_sorted(s: Seq<HighScore>)
    requires
        sorted_desc(s),
    ensures
        sort_desc(s) == s,
    decreases s.len(),
{
    if s.len() > 0 {
        let front = s.drop_last();
        assert(sorted_desc(front)) by {
            assert forall|i: int, j: int| 0 <= i < j < front.len() implies #[trigger] front[i].points() >= #[trigger] front[j].points() by {
                assert(front[i] == s[i] && front[j] == s[j]);
            }
        }
        law_sort_desc_keeps_sorted(front);
        assert forall|k: int| 0 <= k < front.len() implies #[trigger] front[k].points() >= s.last().points() by {
            assert(front[k] == s[k]);
        }
        lemma_ties_end_unique(front, s.last().points(), front.len() as int);
        assert(front.insert(front.len() as int, s.last()) =~= s);
    }
}

/// A valid board written out and read back with the same capacity is the
/// same board: loading restores what was saved.
pub proof fn law_reload_restores_board(board: HighScoreRepository)
    requires
        board.wf(),
    ensures
        normalized_records(board.records(), board.capacity() as u8) == board.records(),
{
    law_sort_desc_keeps_sorted(board.records());
    assert(board.records().take(board.records().len() as int) =~= board.records());
}

/// Where `position` reports an index for a score, pushing a record with that
/// score succeeds at that very index; where it reports none, the push fails.
pub proof fn law_position_predicts_push(board: HighScoreRepository, h: HighScore)
    requires
        board.wf(),
        board.capacity() > 0,
    ensures
        position_spec(board.records(), board.capacity(), h.points()) == (match push_result(board.records(), board.capacity(), h.points()) {
            Ok(i) => Some(i),
            Err(_) => None::<usize>,
        }),
{
    lemma_insert_index_bounds(board.records(), h.points());
}

/// A record reaching every score on the board always enters it, at the top,
/// whenever the board has room for at least one record.
pub proof fn law_best_score_always_enters(board: HighScoreRepository, h: HighScore)
    requires
        board.capacity() > 0,
        forall|k: int| 0 <= k < board.records().len() ==> h.points() >= #[trigger] board.records()[k].points(),
    ensures
        push_result(board.records(), board.capacity(), h.points()) == Ok::<usize, ()>(0),
        pushed_records(board.records(), board.capacity(), h)[0] == h,
{
    lemma_insert_index_unique(board.records(), h.points(), 0);
}

/// On a full board, a record scoring below the lowest one is turned away and
/// the board stays as it was.
pub proof fn law_low_score_rejected_when_full(board: HighScoreRepository, h: HighScore)
    requires
        board.wf(),
        board.records().len() == board.capacity(),
        board.records().len() > 0,
        h.points() < board.records().last().points(),
    ensures
        push_result(board.records(), board.capacity(), h.points()) is Err,
        pushed_records(board.records(), board.capacity(), h) == board.records(),
{
    let s = board.records();
    assert forall|k: int| 0 <= k < s.len() implies h.points() < #[trigger] s[k].points() by {
        if k < s.len() - 1 {
            assert(s[k].points() >= s[s.len() - 1].points());
        }
    }
    lemma_insert_index_unique(s, h.points(), s.len() as int);
    assert(s.insert(s.len() as int, h).take(s.len() as int) =~= s);
}

/// Each push adds one record until the board is full; after that the size
/// stays at capacity.
pub proof fn law_push_fills_to_capacity(board: HighScoreRepository, h: HighScore)
    requires
        board.wf(),
    ensures
        pushed_records(board.records(), board.capacity(), h).len() == (if board.records().len() + 1 <= board.capacity() {
            board.records().len() + 1
        } else {
            board.capacity()
        }),
{
    lemma_insert_index_bounds(board.records(), h.points());
}

/// A successful push places the new record at the reported index, and every
/// record scoring more than it stays on the board in front of it.
pub proof fn law_push_keeps_better_records(board: HighScoreRepository, h: HighScore)
    requires
        board.wf(),
    ensures
        push_result(board.records(), board.capacity(), h.points()) matches Ok(i) ==> {
            &&& pushed_records(board.records(), board.capacity(), h)[i as int] == h
            &&& forall|k: int| 0 <= k < i ==> #[trigger] pushed_records(board.records(), board.capacity(), h)[k] == board.records()[k]
            &&& forall|k: int| 0 <= k < i ==> #[trigger] board.records()[k].points() > h.points()
        },
{
    lemma_insert_index_bounds(board.records(), h.points());
}

/// A push only ever drops the lowest records: the new record goes in front
/// of the first record it reaches (every record in front of it scores more,
/// the one behind it no more), every record behind it moves down one place
/// in order, and the board is then cut to its capacity, so only records at
/// the end fall off. The reported index is that place when it is within
/// capacity.
pub proof fn law_push_only_drops_the_lowest(board: HighScoreRepository, h: HighScore)
    requires
        board.wf(),
    ensures
        ({
            let s = board.records();
            let cap = board.capacity();
            let idx = insert_index(s, h.points());
            let pushed = pushed_records(s, cap, h);
            &&& 0 <= idx <= s.len()
            &&& forall|k: int| 0 <= k < idx ==> #[trigger] s[k].points() > h.points()
            &&& idx < s.len() ==> s[idx].points() <= h.points()
            &&& pushed.len() == (if cap < s.len() + 1 { cap as int } else { s.len() + 1int })
            &&& forall|k: int| 0 <= k < pushed.len() ==> #[trigger] pushed[k] == (if k < idx {
                s[k]
            } else if k == idx {
                h
            } else {
                s[k - 1]
            })
            &&& (push_result(s, cap, h.points()) is Ok <==> idx < cap)
            &&& push_result(s, cap, h.points()) matches Ok(i) ==> i == idx
        }),
{
    let s = board.records();
    let cap = board.capacity();
    lemma_insert_index_bounds(s, h.points());
    let idx = insert_index(s, h.points());
    let ins = s.insert(idx, h);
    let pushed = pushed_records(s, cap, h);
    assert forall|k: int| 0 <= k < pushed.len() implies #[trigger] pushed[k] == (if k < idx {
        s[k]
    } else if k == idx {
        h
    } else {
        s[k - 1]
    }) by {
        assert(pushed[k] == ins[k]);
    }
}

} // verus!
