//! Bounded histories: a list that keeps only its newest items.
use vstd::prelude::*;

verus! {

/// The last `n` items of `s`, or all of them when there are fewer.
pub open spec fn last_n<T>(s: Seq<T>, n: nat) -> Seq<T> {
    if s.len() > n {
        s.subrange(s.len() - n, s.len() as int)
    } else {
        s
    }
}

/// Drops the oldest items until at most `limit` remain.
pub fn keep_last<T>(items: &mut Vec<T>, limit: usize)
    ensures
        final(items)@ == last_n(old(items)@, limit as nat),
{
    let ghost orig = items@;
    if items.len() > limit {
        let excess = items.len() - limit;
        let mut removed: usize = 0;
        assert(orig.subrange(0, orig.len() as int) =~= orig);
        while removed < excess
            invariant
                orig.len() > limit,
                excess == orig.len() - limit,
                removed <= excess,
                items@ == orig.subrange(removed as int, orig.len() as int),
            decreases excess - removed,
        {
            let ghost before = items@;
            items.remove(0);
            assert(items@ =~= orig.subrange(removed + 1, orig.len() as int));
            removed = removed + 1;
        }
    }
}

/// Appends an item and then drops the oldest ones beyond `limit`.
pub fn push_bounded<T>(items: &mut Vec<T>, item: T, limit: usize)
    ensures
        final(items)@ == last_n(old(items)@.push(item), limit as nat),
        final(items)@.len() <= limit,
        limit > 0 ==> final(items)@.last() == item,
{
    items.push(item);
    keep_last(items, limit);
}

/// How many recent latencies the live chart shows.
pub const LATENCY_SERIES_LIMIT: usize = 600;

/// The newest latencies, at most `LATENCY_SERIES_LIMIT` of them, oldest first.
pub fn latency_series<T: Copy>(values: &[T]) -> (r: Vec<T>)
    ensures
        r@ == last_n(values@, LATENCY_SERIES_LIMIT as nat),
{
    let start = values.len().saturating_sub(LATENCY_SERIES_LIMIT);
    let mut out: Vec<T> = Vec::new();
    let mut i = start;
    while i < values.len()
        invariant
            start <= i <= values@.len(),
            start == (if values@.len() > LATENCY_SERIES_LIMIT { values@.len() - LATENCY_SERIES_LIMIT } else { 0 }),
            out@ == values@.subrange(start as int, i as int),
        decreases values@.len() - i,
    {
        out.push(values[i]);
        assert(out@ =~= values@.subrange(start as int, i + 1));
        i = i + 1;
    }
    assert(values@.subrange(0, values@.len() as int) =~= values@);
    out
}

/// How many log lines a status keeps.
pub const LOG_LINE_LIMIT: usize = 200;

/// `[time] message`, as a status log line reads.
pub open spec fn stamped_text(time: Seq<char>, message: Seq<char>) -> Seq<char> {
    seq!['['] + time + seq![']', ' '] + message
}

/// Builds the log line `[time] message`.
pub fn stamp_message(time: &str, message: &str) -> (r: String)
    ensures
        r@ == stamped_text(time@, message@),
{
    proof {
        reveal_strlit("[");
        reveal_strlit("] ");
    }
    let mut out = String::from_str("[");
    out.append(time);
    out.append("] ");
    out.append(message);
    assert(out@ =~= stamped_text(time@, message@));
    out
}

/// Adds a line to a status log, which keeps its newest `LOG_LINE_LIMIT` lines.
pub fn push_log_line(messages: &mut Vec<String>, line: String)
    ensures
        final(messages)@ == last_n(old(messages)@.push(line), LOG_LINE_LIMIT as nat),
{
    push_bounded(messages, line, LOG_LINE_LIMIT);
}

} // verus!
