//! The batch model: the results of the runs of an operation are written out in
//! the order of the runs, each but the last followed by a delimiter, whatever
//! the order in which the runs end.

use std::collections::HashMap;
use vstd::prelude::*;

verus! {

broadcast use vstd::std_specs::hash::group_hash_axioms;

/// What is written for the run `index` of `count` runs: its result, and the
/// delimiter after it unless the run is the last.
pub open spec fn segment(result: Seq<u8>, index: int, count: int, delimiter: Seq<u8>) -> Seq<u8> {
    if index + 1 < count {
        result + delimiter
    } else {
        result
    }
}

/// What is written for each of the runs, in the order of the runs.
pub open spec fn segments(results: Seq<Seq<u8>>, delimiter: Seq<u8>) -> Seq<Seq<u8>> {
    Seq::new(
        results.len(),
        |i: int| segment(results[i], i, results.len() as int, delimiter),
    )
}

/// The bytes of `parts`, one part after the other.
pub open spec fn stream(parts: Seq<Seq<u8>>) -> Seq<u8>
    decreases parts.len(),
{
    if parts.len() == 0 {
        Seq::empty()
    } else {
        stream(parts.drop_last()) + parts.last()
    }
}

/// The byte vectors of `buffers` as sequences.
pub open spec fn contents(buffers: Seq<Vec<u8>>) -> Seq<Seq<u8>> {
    buffers.map_values(|buffer: Vec<u8>| buffer@)
}

/// How far a batch has come: of `count` runs, the segments of the runs below
/// `next` are written, and `waiting` holds the results of later runs that have
/// ended before their turn.
pub struct Progress {
    pub count: int,
    pub delimiter: Seq<u8>,
    pub next: int,
    pub waiting: Map<int, Seq<u8>>,
}

/// A batch of `count` runs of which none has ended.
pub open spec fn beginning(count: int, delimiter: Seq<u8>) -> Progress {
    Progress { count, delimiter, next: 0, waiting: Map::empty() }
}

/// Whether the result of the run `index` is still owed: the run is one of the
/// batch, and no result of it was handed in.
pub open spec fn owed(progress: Progress, index: int) -> bool {
    progress.next <= index < progress.count && !progress.waiting.contains_key(index)
}

/// The first run from `from` on whose result `pool` does not hold, or `count`
/// where it holds them all.
pub open spec fn first_gap(pool: Map<int, Seq<u8>>, from: int, count: int) -> int
    decreases count - from,
{
    if from < count && pool.contains_key(from) {
        first_gap(pool, from + 1, count)
    } else {
        from
    }
}

/// The results that wait once the result of the run `index` is handed in.
pub open spec fn pool_with(progress: Progress, index: int, result: Seq<u8>) -> Map<int, Seq<u8>> {
    progress.waiting.insert(index, result)
}

/// How far the batch has come once the result of the run `index` is handed in:
/// up to the first run whose result is still owed.
pub open spec fn advance(progress: Progress, index: int, result: Seq<u8>) -> Progress {
    let pool = pool_with(progress, index, result);
    let stop = first_gap(pool, progress.next, progress.count);
    Progress {
        count: progress.count,
        delimiter: progress.delimiter,
        next: stop,
        waiting: Map::new(|k: int| pool.contains_key(k) && k >= stop, |k: int| pool[k]),
    }
}

/// What can be written once the result of the run `index` is handed in: the
/// segments of the runs from the first that was owed up to the first that
/// still is.
pub open spec fn released(progress: Progress, index: int, result: Seq<u8>) -> Seq<Seq<u8>> {
    let pool = pool_with(progress, index, result);
    let stop = first_gap(pool, progress.next, progress.count);
    Seq::new(
        (stop - progress.next) as nat,
        |i: int|
            segment(pool[progress.next + i], progress.next + i, progress.count, progress.delimiter),
    )
}

/// Where the batch stands, and all that was released, after the results of the
/// runs `order[0]`, `order[1]` and so on were handed in, in that order.
pub open spec fn after(start: Progress, order: Seq<int>, results: Seq<Seq<u8>>) -> (Progress, Seq<
    Seq<u8>,
>)
    decreases order.len(),
{
    if order.len() == 0 {
        (start, Seq::empty())
    } else {
        let (progress, written) = after(start, order.drop_last(), results);
        let index = order.last();
        (
            advance(progress, index, results[index]),
            written + released(progress, index, results[index]),
        )
    }
}

/// Whether `order` names each of `count` runs once.
pub open spec fn each_once(order: Seq<int>, count: int) -> bool {
    &&& order.len() == count
    &&& forall|i: int| 0 <= i < order.len() ==> 0 <= #[trigger] order[i] < count
    &&& forall|i: int, j: int| 0 <= i < j < order.len() ==> order[i] != order[j]
    &&& forall|k: int| 0 <= k < count ==> order.contains(k)
}

/// The first gap is at or behind the start and at or before the end; the pool
/// holds every run between the start and the gap, and does not hold the gap
/// itself unless that is the end.
pub proof fn lemma_first_gap(pool: Map<int, Seq<u8>>, from: int, count: int)
    requires
        from <= count,
    ensures
        from <= first_gap(pool, from, count) <= count,
        forall|k: int| from <= k < first_gap(pool, from, count) ==> pool.contains_key(k),
        first_gap(pool, from, count) < count ==> !pool.contains_key(first_gap(pool, from, count)),
    decreases count - from,
{
    if from < count && pool.contains_key(from) {
        lemma_first_gap(pool, from + 1, count);
    }
}

/// One segment is written for each run, and only the last is not followed by
/// the delimiter. A single run gives its result and nothing else.
pub proof fn lemma_segments_shape(results: Seq<Seq<u8>>, delimiter: Seq<u8>)
    ensures
        segments(results, delimiter).len() == results.len(),
        forall|i: int|
            0 <= i < results.len() - 1 ==> #[trigger] segments(results, delimiter)[i] == results[i]
                + delimiter,
        results.len() > 0 ==> segments(results, delimiter).last() == results.last(),
{
}

/// Whatever the order in which the runs end, once each has handed in its
/// result all segments have been released, in the order of the runs, and
/// nothing waits.
pub proof fn lemma_order_kept(order: Seq<int>, results: Seq<Seq<u8>>, delimiter: Seq<u8>)
    requires
        each_once(order, results.len() as int),
    ensures
        after(beginning(results.len() as int, delimiter), order, results).1 == segments(
            results,
            delimiter,
        ),
        after(beginning(results.len() as int, delimiter), order, results).0.next == results.len(),
        after(beginning(results.len() as int, delimiter), order, results).0.waiting
            == Map::<int, Seq<u8>>::empty(),
{
    let count = results.len() as int;
    lemma_order_prefix(order, results, delimiter, count);
    assert(order.take(count) =~= order);
    let (progress, written) = after(beginning(count, delimiter), order, results);
    assert(progress.next == count) by {
        if progress.next < count {
            let i = choose|i: int| 0 <= i < order.len() && order[i] == progress.next;
            assert(order.take(count)[i] == progress.next);
        }
    }
    assert(segments(results, delimiter).take(count) =~= segments(results, delimiter));
    assert forall|k: int| !progress.waiting.contains_key(k) by {
        if progress.waiting.contains_key(k) {
            let i = choose|i: int| 0 <= i < order.len() && order[i] == k;
            assert(0 <= order[i] < count);
        }
    }
    assert(progress.waiting =~= Map::<int, Seq<u8>>::empty());
}

/// What holds after the first `n` runs of `order` have ended: the runs below
/// `next` have all ended and their segments are written, in order; the run
/// `next` has not ended; and the results of the other runs that have ended wait.
pub open spec fn kept(
    progress: Progress,
    written: Seq<Seq<u8>>,
    ended: Seq<int>,
    results: Seq<Seq<u8>>,
    delimiter: Seq<u8>,
) -> bool {
    &&& progress.count == results.len()
    &&& progress.delimiter == delimiter
    &&& 0 <= progress.next <= progress.count
    &&& forall|k: int| 0 <= k < progress.next ==> ended.contains(k)
    &&& progress.next < progress.count ==> !ended.contains(progress.next)
    &&& forall|k: int|
        #![trigger progress.waiting.contains_key(k)]
        #![trigger ended.contains(k)]
        progress.waiting.contains_key(k) <==> (ended.contains(k) && k > progress.next)
    &&& forall|k: int|
        #![trigger progress.waiting.contains_key(k)]
        progress.waiting.contains_key(k) ==> progress.waiting[k] == results[k]
    &&& written == segments(results, delimiter).take(progress.next)
}

proof fn lemma_order_prefix(order: Seq<int>, results: Seq<Seq<u8>>, delimiter: Seq<u8>, n: int)
    requires
        each_once(order, results.len() as int),
        0 <= n <= order.len(),
    ensures
        kept(
            after(beginning(results.len() as int, delimiter), order.take(n), results).0,
            after(beginning(results.len() as int, delimiter), order.take(n), results).1,
            order.take(n),
            results,
            delimiter,
        ),
    decreases n,
{
    let count = results.len() as int;
    let start = beginning(count, delimiter);
    if n == 0 {
        assert(segments(results, delimiter).take(0) =~= Seq::<Seq<u8>>::empty());
    } else {
        lemma_order_prefix(order, results, delimiter, n - 1);
        let ended = order.take(n - 1);
        let now = order.take(n);
        assert(now.drop_last() =~= ended);
        let index = order[n - 1];
        assert(now.last() == index);
        let (before, written) = after(start, ended, results);
        assert(!ended.contains(index)) by {
            if ended.contains(index) {
                let i = choose|i: int| 0 <= i < ended.len() && ended[i] == index;
                assert(order[i] == index);
            }
        }
        assert forall|k: int| now.contains(k) <==> (ended.contains(k) || k == index) by {
            if now.contains(k) {
                let i = choose|i: int| 0 <= i < now.len() && now[i] == k;
                if i < n - 1 {
                    assert(ended[i] == k);
                }
            }
            if ended.contains(k) {
                let i = choose|i: int| 0 <= i < ended.len() && ended[i] == k;
                assert(now[i] == k);
            }
            assert(now[n - 1] == index);
        }
        let pool = pool_with(before, index, results[index]);
        let stop = first_gap(pool, before.next, count);
        lemma_first_gap(pool, before.next, count);
        let next = advance(before, index, results[index]);
        let more = released(before, index, results[index]);
        let all = segments(results, delimiter);
        assert(written + more =~= all.take(stop)) by {
            assert forall|i: int| 0 <= i < stop implies (written + more)[i] == all[i] by {
                if i >= before.next {
                    assert(pool.contains_key(i));
                    assert(pool[i] == results[i]);
                    assert(more[i - before.next] == segment(pool[i], i, count, delimiter));
                } else {
                    assert(written[i] == all[i]);
                }
            }
        }
        assert forall|k: int| 0 <= k < next.next implies now.contains(k) by {
            if k >= before.next {
                assert(pool.contains_key(k));
            }
        }
        assert(after(start, now, results) == (next, written + more));
    }
}

/// Why a result was not taken.
#[derive(Debug, Clone, Copy, PartialEq, Eq, Structural)]
pub enum SequenceError {
    /// The batch has no run of that index.
    OutOfRange,
    /// A result of that run was handed in before.
    Repeated,
}

/// Puts the results of the runs of a batch in order. Results are handed in as
/// the runs end, and each hand-in gives back what can be written next.
pub struct Sequencer {
    count: usize,
    delimiter: Vec<u8>,
    next: usize,
    waiting: HashMap<usize, Vec<u8>>,
}

impl View for Sequencer {
    type V = Progress;

    closed spec fn view(&self) -> Progress {
        Progress {
            count: self.count as int,
            delimiter: self.delimiter@,
            next: self.next as int,
            waiting: Map::new(
                |k: int| 0 <= k <= usize::MAX && self.waiting@.contains_key(k as usize),
                |k: int| self.waiting@[k as usize]@,
            ),
        }
    }
}

/// `extra` at the end of `target`.
fn append_bytes(target: &mut Vec<u8>, extra: &[u8])
    ensures
        final(target)@ == old(target)@ + extra@,
{
    let mut at: usize = 0;
    while at < extra.len()
        invariant
            at <= extra@.len(),
            target@ == old(target)@ + extra@.take(at as int),
        decreases extra@.len() - at,
    {
        target.push(extra[at]);
        assert(extra@.take(at + 1) =~= extra@.take(at as int).push(extra@[at as int]));
        at = at + 1;
    }
    assert(extra@.take(at as int) =~= extra@);
}

impl Sequencer {
    /// Whether the sequencer is in order: it has not come further than the
    /// batch is long, and what waits belongs to runs behind the one whose turn
    /// it is.
    pub closed spec fn wf(&self) -> bool {
        &&& self.next <= self.count
        &&& forall|k: usize| self.waiting@.contains_key(k) ==> self.next < k < self.count
    }

    /// A sequencer for `count` runs whose results are separated by `delimiter`.
    pub fn new(count: usize, delimiter: &[u8]) -> (sequencer: Sequencer)
        ensures
            sequencer.wf(),
            sequencer@ == beginning(count as int, delimiter@),
    {
        let mut copy: Vec<u8> = Vec::new();
        append_bytes(&mut copy, delimiter);
        let sequencer = Sequencer { count, delimiter: copy, next: 0, waiting: HashMap::new() };
        assert(sequencer@.waiting =~= Map::<int, Seq<u8>>::empty());
        sequencer
    }

    /// Whether every segment has been given out.
    pub fn is_complete(&self) -> (done: bool)
        requires
            self.wf(),
        ensures
            done == (self@.next == self@.count),
    {
        self.next == self.count
    }

    /// Takes the result of the run `index` and gives back the segments that
    /// can be written now, in the order of the runs: none where an earlier run
    /// has not ended yet. A result of a run that the batch does not have, or
    /// whose result was handed in before, is refused and changes nothing.
    pub fn submit(&mut self, index: usize, result: Vec<u8>) -> (outcome: Result<
        Vec<Vec<u8>>,
        SequenceError,
    >)
        requires
            old(self).wf(),
        ensures
            final(self).wf(),
            outcome is Ok <==> owed(old(self)@, index as int),
            outcome matches Ok(ready) ==> final(self)@ == advance(
                old(self)@,
                index as int,
                result@,
            ) && contents(ready@) == released(old(self)@, index as int, result@),
            outcome matches Err(error) ==> final(self)@ == old(self)@ && error == (if index
                >= old(self)@.count {
                SequenceError::OutOfRange
            } else {
                SequenceError::Repeated
            }),
    {
        if index >= self.count {
            return Err(SequenceError::OutOfRange);
        }
        if index < self.next || self.waiting.contains_key(&index) {
            return Err(SequenceError::Repeated);
        }
        let ghost begin = self@;
        let ghost given = result@;
        let ghost pool = pool_with(begin, index as int, given);
        let ghost all = released(begin, index as int, given);
        let ghost stop = first_gap(pool, begin.next, begin.count);
        proof {
            lemma_first_gap(pool, begin.next, begin.count);
        }
        self.waiting.insert(index, result);
        let mut ready: Vec<Vec<u8>> = Vec::new();
        assert(all.take(0) =~= contents(ready@));
        loop
            invariant
                self.count == begin.count,
                self.delimiter@ == begin.delimiter,
                begin.next <= self.next <= stop <= begin.count,
                begin.next <= index < begin.count,
                pool == pool_with(begin, index as int, given),
                all == released(begin, index as int, given),
                stop == first_gap(pool, begin.next, begin.count),
                stop < begin.count ==> !pool.contains_key(stop),
                forall|k: int| begin.next <= k < stop ==> pool.contains_key(k),
                forall|k: int| pool.contains_key(k) ==> begin.next <= k < begin.count,
                forall|k: usize|
                    #![trigger self.waiting@.contains_key(k)]
                    self.waiting@.contains_key(k) <==> (pool.contains_key(k as int) && k
                        >= self.next),
                forall|k: usize|
                    #![trigger self.waiting@.contains_key(k)]
                    self.waiting@.contains_key(k) ==> self.waiting@[k]@ == pool[k as int],
                contents(ready@) == all.take(self.next - begin.next),
            ensures
                self.next == stop,
            decreases self.count - self.next,
        {
            if self.next >= self.count {
                break ;
            }
            let ghost here = self.next;
            let ghost held = self.waiting@;
            match self.waiting.remove(&self.next) {
                None => {
                    assert(!held.contains_key(here));
                    assert(self.waiting@ =~= held);
                    assert(!pool.contains_key(here as int));
                    break ;
                },
                Some(bytes) => {
                    let mut bytes = bytes;
                    assert(held.contains_key(here));
                    assert(self.waiting@ == held.remove(here));
                    assert(pool.contains_key(here as int));
                    assert(bytes@ == pool[here as int]);
                    assert(here < stop);
                    if self.next + 1 < self.count {
                        append_bytes(&mut bytes, self.delimiter.as_slice());
                    }
                    let ghost before = contents(ready@);
                    ready.push(bytes);
                    self.next = self.next + 1;
                    proof {
                        assert(contents(ready@) =~= before.push(bytes@));
                        assert(all[here - begin.next] == bytes@);
                        assert(all.take(here + 1 - begin.next) =~= all.take(here - begin.next).push(
                            all[here - begin.next],
                        ));
                        assert forall|k: usize|
                            #![trigger self.waiting@.contains_key(k)]
                            self.waiting@.contains_key(k) <==> (pool.contains_key(k as int) && k
                                >= self.next) by {
                            if k != here {
                                assert(self.waiting@.contains_key(k) == held.contains_key(k));
                            }
                        }
                        assert forall|k: usize|
                            #![trigger self.waiting@.contains_key(k)]
                            self.waiting@.contains_key(k) implies self.waiting@[k]@ == pool[k as int] by {
                            assert(held.contains_key(k));
                        }
                    }
                },
            }
        }
        proof {
            assert(all.take(stop - begin.next) =~= all);
            let target = advance(begin, index as int, given);
            assert forall|k: usize| self.waiting@.contains_key(k) implies self.next < k
                < self.count by {
                assert(pool.contains_key(k as int) && k >= self.next);
            }
            assert forall|k: int| self@.waiting.contains_key(k) <==> target.waiting.contains_key(
                k,
            ) by {
                if self@.waiting.contains_key(k) {
                    assert(self.waiting@.contains_key(k as usize));
                }
                if target.waiting.contains_key(k) {
                    assert(pool.contains_key(k));
                    assert(begin.next <= k < begin.count);
                    assert(self.waiting@.contains_key(k as usize));
                }
            }
            assert forall|k: int| self@.waiting.contains_key(k) implies self@.waiting[k]
                == target.waiting[k] by {
                assert(self.waiting@.contains_key(k as usize));
            }
            assert(self@.waiting =~= target.waiting);
        }
        Ok(ready)
    }
}

/// What is written for `results`, the results of the runs in their order: each
/// result in a segment of its own, followed by `delimiter` unless it is the last.
pub fn frame(results: &Vec<Vec<u8>>, delimiter: &[u8]) -> (framed: Vec<Vec<u8>>)
    ensures
        contents(framed@) == segments(contents(results@), delimiter@),
        framed@.len() == results@.len(),
{
    let count = results.len();
    let mut framed: Vec<Vec<u8>> = Vec::new();
    let mut at: usize = 0;
    while at < count
        invariant
            count == results@.len(),
            at <= count,
            contents(framed@) == segments(contents(results@), delimiter@).take(at as int),
        decreases count - at,
    {
        let mut piece: Vec<u8> = Vec::new();
        append_bytes(&mut piece, results[at].as_slice());
        if at + 1 < count {
            append_bytes(&mut piece, delimiter);
        }
        let ghost before = contents(framed@);
        framed.push(piece);
        proof {
            let all = segments(contents(results@), delimiter@);
            assert(contents(results@)[at as int] == results@[at as int]@);
            assert(contents(framed@) =~= before.push(piece@));
            assert(all.take(at + 1) =~= all.take(at as int).push(all[at as int]));
        }
        at = at + 1;
    }
    assert(segments(contents(results@), delimiter@).take(count as int) =~= segments(
        contents(results@),
        delimiter@,
    ));
    framed
}

/// The bytes of `parts`, one part after the other.
pub fn flatten(parts: &Vec<Vec<u8>>) -> (bytes: Vec<u8>)
    ensures
        bytes@ == stream(contents(parts@)),
{
    let mut bytes: Vec<u8> = Vec::new();
    let mut at: usize = 0;
    assert(contents(parts@).take(0) =~= Seq::<Seq<u8>>::empty());
    while at < parts.len()
        invariant
            at <= parts@.len(),
            bytes@ == stream(contents(parts@).take(at as int)),
        decreases parts@.len() - at,
    {
        append_bytes(&mut bytes, parts[at].as_slice());
        proof {
            let all = contents(parts@);
            assert(all.take(at + 1).drop_last() =~= all.take(at as int));
            assert(all.take(at + 1).last() == parts@[at as int]@);
        }
        at = at + 1;
    }
    assert(contents(parts@).take(at as int) =~= contents(parts@));
    bytes
}

} // verus!
