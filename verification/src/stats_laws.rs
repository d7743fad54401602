//! What holds of reading a server's counters as a whole.

use crate::number;
use crate::resp;
use crate::stats::{self, AggregateStats, ShardStats};
use crate::text;
use vstd::prelude::*;
use vstd::string::*;

verus! {

/// Chunks that are received one after the other.
pub open spec fn joined_chunks(chunks: Seq<Seq<u8>>) -> Seq<u8>
    decreases chunks.len(),
{
    if chunks.len() == 0 {
        seq![]
    } else {
        chunks[0] + joined_chunks(chunks.drop_first())
    }
}

/// Whether `last` is the step that calls of [`stats::fetch`] end in, if they
/// begin in `state` and `chunks` are received one after the other until a step
/// is more than to receive more.
pub open spec fn is_run(
    state: stats::FetchStateView,
    chunks: Seq<Seq<u8>>,
    last: stats::FetchStepView,
) -> bool
    decreases chunks.len(),
{
    if chunks.len() == 0 {
        last == stats::FetchStepView::Receive(state)
    } else {
        let step = stats::after_chunk(state, chunks[0]);
        stats::is_step(state, chunks[0], step) && match step {
            stats::FetchStepView::Receive(next) => is_run(next, chunks.drop_first(), last),
            _ => last == step,
        }
    }
}

/// It does not matter in which pieces bytes arrive: calls of [`stats::fetch`]
/// end in the step that one call with all of the bytes gives.
pub proof fn law_pieces_do_not_matter(
    state: stats::FetchStateView,
    chunks: Seq<Seq<u8>>,
    last: stats::FetchStepView,
)
    requires
        chunks.len() > 0,
        forall|i: int| 0 <= i < chunks.len() ==> (#[trigger] chunks[i]).len() > 0,
    ensures
        is_run(state, chunks, last) ==> last == stats::after_chunk(state, joined_chunks(chunks)),
    decreases chunks.len(),
{
    if is_run(state, chunks, last) {
        let first = chunks[0];
        let others = chunks.drop_first();
        let rest = joined_chunks(others);
        let step = stats::after_chunk(state, first);
        assert(first.len() > 0);
        assert(joined_chunks(chunks) == first + rest);
        if others.len() == 0 {
            assert(first + rest =~= first);
            if let stats::FetchStepView::Receive(next) = step {
                assert(is_run(next, others, last));
            }
        } else {
            match step {
                stats::FetchStepView::Receive(next) => {
                    assert forall|i: int| 0 <= i < others.len() implies (
                    #[trigger] others[i]).len() > 0 by {
                        assert(others[i] == chunks[i + 1]);
                    }
                    law_pieces_do_not_matter(next, others, last);
                    assert(others[0].len() > 0);
                    assert(rest == others[0] + joined_chunks(others.drop_first()));
                    assert(state.received + first + rest =~= state.received + (first + rest));
                },
                _ => {
                    assert(stats::after_chunk(state, first + rest) == step);
                },
            }
        }
    }
}

/// A connection that closes while a reply is not whole ends the call.
pub proof fn law_closing_ends_the_call(state: stats::FetchStateView)
    ensures
        stats::after_chunk(state, seq![]) == stats::FetchStepView::Fail(
            stats::FetchErrorView::Closed,
        ),
{
}

/// A call goes through its four commands in order, one after each reply, and
/// ends with the report that the four replies make.
pub proof fn law_four_replies_make_the_report(
    hello: resp::ReplyView,
    aggregate: resp::ReplyView,
    shards: resp::ReplyView,
    vindexes: resp::ReplyView,
)
    ensures
        match stats::hello_of(hello) {
            Err(e) => stats::after_reply(stats::StageView::Hello, hello)
                == stats::FetchStepView::Fail(e),
            Ok(info) => {
                let totals = stats::aggregate_of(resp::reply_text(aggregate));
                let per_shard = stats::shards_of(resp::reply_text(shards));
                let second = stats::StageView::Stats { info };
                let third = stats::StageView::Shards { info, aggregate: totals };
                let fourth = stats::StageView::Vindexes {
                    info,
                    aggregate: totals,
                    shards: per_shard,
                };
                &&& stats::command_of(stats::StageView::Hello) == seq!["HELLO"@, "3"@]
                &&& stats::after_reply(stats::StageView::Hello, hello) == stats::enter(second)
                &&& stats::command_of(second) == seq!["SKEG.STATS"@]
                &&& stats::after_reply(second, aggregate) == stats::enter(third)
                &&& stats::command_of(third) == seq!["SKEG.SHARDS"@]
                &&& stats::after_reply(third, shards) == stats::enter(fourth)
                &&& stats::command_of(fourth) == seq!["SKEG.VINDEX.LIST"@]
                &&& stats::after_reply(fourth, vindexes) == stats::FetchStepView::Finish(
                    stats::ServerStatsView {
                        info,
                        aggregate: totals,
                        shards: per_shard,
                        vindexes: stats::vindexes_of(resp::reply_text(vindexes)),
                    },
                )
            },
        },
{
}

/// Every command is preceded by a discard that finds nothing unread: a call
/// begins with a discard, no reply is followed by a command, and a discard is
/// followed by the command of its stage only once there is nothing unread.
pub proof fn law_every_command_follows_a_discard(
    state: stats::FetchStateView,
    chunk: Seq<u8>,
    unread: Seq<u8>,
)
    ensures
        stats::enter(state.stage) is Discard,
        !(stats::after_chunk(state, chunk) is Send),
        stats::after_discard(state, unread) is Send <==> unread.len() == 0,
        stats::after_discard(state, seq![]) == stats::FetchStepView::Send(
            stats::FetchStateView { stage: state.stage, received: seq![] },
            resp::command_bytes(stats::command_of(state.stage)),
        ),
{
}

/// Stale bytes are never taken for the answer to a command: whatever was
/// received before and whatever is unread, the command is sent, and its answer
/// is read, as if there had been nothing.
pub proof fn law_stale_bytes_are_not_the_answer(
    state: stats::FetchStateView,
    stale: Seq<u8>,
    answer: Seq<u8>,
)
    requires
        stale.len() > 0,
        answer.len() > 0,
    ensures
        stats::after_discard(state, stale) == stats::enter(state.stage),
        match stats::after_discard(state, seq![]) {
            stats::FetchStepView::Send(waiting, bytes) => stats::after_chunk(waiting, answer)
                == stats::after_parse(
                stats::FetchStateView { stage: state.stage, received: answer },
                resp::parsed(answer),
            ),
            _ => false,
        },
{
    assert(Seq::<u8>::empty() + answer =~= answer);
}

/// Nothing that came after a reply is taken for the next one: each stage
/// begins with nothing received.
pub proof fn law_nothing_is_carried_over(stage: stats::StageView, reply: resp::ReplyView)
    ensures
        match stats::after_reply(stage, reply) {
            stats::FetchStepView::Discard(next) => next.received == Seq::<u8>::empty(),
            stats::FetchStepView::Finish(report) => true,
            stats::FetchStepView::Fail(e) => true,
            _ => false,
        },
{
}

/// Whether `s` is a word: characters of which none is white space.
pub open spec fn is_word(s: Seq<char>) -> bool {
    s.len() > 0 && forall|i: int| 0 <= i < s.len() ==> !text::is_space(#[trigger] s[i])
}

/// Whether `s` can stand before the `=` of a field.
pub open spec fn is_key(s: Seq<char>) -> bool {
    is_word(s) && forall|i: int| 0 <= i < s.len() ==> #[trigger] s[i] != '='
}

/// Whether `s` can stand after the `=` of a field.
pub open spec fn is_value(s: Seq<char>) -> bool {
    s.len() == 0 || is_word(s)
}

/// `key=value`.
pub open spec fn field(key: Seq<char>, value: Seq<char>) -> Seq<char> {
    key + seq!['='] + value
}

/// `key=n`.
pub open spec fn counter_field(key: Seq<char>, n: nat) -> Seq<char> {
    field(key, number::decimal(n))
}

/// `a` and `b` with a space between them.
pub open spec fn spaced(a: Seq<char>, b: Seq<char>) -> Seq<char> {
    a + seq![' '] + b
}

proof fn lemma_one_word(w: Seq<char>)
    requires
        is_word(w),
    ensures
        text::words(w) == seq![w],
{
    text::lemma_until_space_is(w, w.len() as int);
    assert(!text::is_space(w[0]));
}

proof fn lemma_words_of_spaced(s: Seq<char>, w: Seq<char>)
    requires
        is_word(w),
    ensures
        text::words(spaced(s, w)) == text::words(s).push(w),
    decreases s.len(),
{
    let t = spaced(s, w);
    lemma_one_word(w);
    if s.len() == 0 {
        assert(t.drop_first() =~= w);
        assert(text::words(t) =~= text::words(s).push(w));
    } else if text::is_space(s[0]) {
        assert(t.drop_first() =~= spaced(s.drop_first(), w));
        lemma_words_of_spaced(s.drop_first(), w);
    } else {
        text::lemma_until_space(s);
        let n = text::until_space(s) as int;
        assert forall|i: int| 0 <= i < n implies !text::is_space(#[trigger] t[i]) by {
            assert(t[i] == s[i]);
        }
        text::lemma_until_space_is(t, n);
        if n >= s.len() {
            assert(t.take(n) =~= s);
            assert(t.skip(n + 1) =~= w);
            assert(text::words(t) =~= text::words(s).push(w));
        } else {
            assert(t.take(n) =~= s.take(n));
            assert(t.skip(n + 1) =~= spaced(s.skip(n + 1), w));
            lemma_words_of_spaced(s.skip(n + 1), w);
            assert(text::words(t) =~= text::words(s).push(w));
        }
    }
}

proof fn lemma_halves_of_field(key: Seq<char>, value: Seq<char>)
    requires
        is_key(key),
    ensures
        text::halves(field(key, value), '=') == Some((key, value)),
{
    let f = field(key, value);
    let n = key.len() as int;
    assert forall|i: int| 0 <= i < n implies f[i] != '=' by {
        assert(f[i] == key[i]);
    }
    text::lemma_until_char_is(f, '=', n);
    assert(f.take(n) =~= key);
    assert(f.skip(n + 1) =~= value);
}

proof fn lemma_field_is_word(key: Seq<char>, value: Seq<char>)
    requires
        is_key(key),
        is_value(value),
    ensures
        is_word(field(key, value)),
{
    let f = field(key, value);
    assert forall|i: int| 0 <= i < f.len() implies !text::is_space(#[trigger] f[i]) by {
        if i < key.len() {
            assert(f[i] == key[i]);
        } else if i > key.len() {
            assert(f[i] == value[i - key.len() - 1]);
        }
    }
}

proof fn lemma_counter_field(key: Seq<char>, n: nat)
    requires
        is_key(key),
        n <= u64::MAX,
    ensures
        is_word(counter_field(key, n)),
        stats::pair_of(counter_field(key, n)) == Some((key, n)),
{
    let value = number::decimal(n);
    number::lemma_decimal_is_read_back(n);
    assert forall|i: int| 0 <= i < value.len() implies !text::is_space(#[trigger] value[i]) by {
        assert(number::is_digit(value[i]));
    }
    lemma_field_is_word(key, value);
    lemma_halves_of_field(key, value);
    number::lemma_uint_of_decimal(n, u64::MAX as nat);
}

proof fn lemma_keys()
    ensures
        is_key("cache_bytes"@),
        is_key("evictions"@),
        is_key("n_keys"@),
        is_key("budget"@),
        is_key("shard"@),
        is_key("name"@),
        is_key("dim"@),
        "cache_bytes"@.len() == 11,
        "evictions"@.len() == 9,
        "n_keys"@.len() == 6,
        "budget"@.len() == 6,
        "n_keys"@ != "budget"@,
        "shard"@.len() == 5,
        "name"@.len() == 4,
        "dim"@.len() == 3,
{
    reveal_strlit("cache_bytes");
    reveal_strlit("evictions");
    reveal_strlit("n_keys");
    reveal_strlit("budget");
    reveal_strlit("shard");
    reveal_strlit("name");
    reveal_strlit("dim");
    assert("cache_bytes"@ =~= seq!['c', 'a', 'c', 'h', 'e', '_', 'b', 'y', 't', 'e', 's']);
    assert("evictions"@ =~= seq!['e', 'v', 'i', 'c', 't', 'i', 'o', 'n', 's']);
    assert("n_keys"@ =~= seq!['n', '_', 'k', 'e', 'y', 's']);
    assert("budget"@ =~= seq!['b', 'u', 'd', 'g', 'e', 't']);
    assert("n_keys"@[0] != "budget"@[0]);
    assert("shard"@ =~= seq!['s', 'h', 'a', 'r', 'd']);
    assert("name"@ =~= seq!['n', 'a', 'm', 'e']);
    assert("dim"@ =~= seq!['d', 'i', 'm']);
}

proof fn lemma_pairs_of_spaced(s: Seq<char>, key: Seq<char>, n: nat)
    requires
        is_key(key),
        n <= u64::MAX,
    ensures
        stats::pairs_of(text::words(spaced(s, counter_field(key, n)))) == stats::pairs_of(
            text::words(s),
        ).push((key, n)),
{
    let w = counter_field(key, n);
    lemma_counter_field(key, n);
    lemma_words_of_spaced(s, w);
    assert(text::words(s).push(w).drop_last() =~= text::words(s));
}

proof fn lemma_pairs_of_field(key: Seq<char>, n: nat)
    requires
        is_key(key),
        n <= u64::MAX,
    ensures
        stats::pairs_of(text::words(counter_field(key, n))) == seq![(key, n)],
{
    let w = counter_field(key, n);
    lemma_counter_field(key, n);
    lemma_one_word(w);
    assert(seq![w].drop_last() =~= seq![]);
    assert(stats::pairs_of(seq![w].drop_last()) =~= seq![]);
    assert(stats::pairs_of(seq![w]) =~= seq![(key, n)]);
}

proof fn lemma_latest_of_push(
    pairs: Seq<(Seq<char>, nat)>,
    key: Seq<char>,
    n: nat,
    wanted: Seq<char>,
    max: nat,
)
    ensures
        stats::latest(pairs.push((key, n)), wanted, max) == (if key == wanted && n <= max {
            n
        } else {
            stats::latest(pairs, wanted, max)
        }),
{
    assert(pairs.push((key, n)).drop_last() =~= pairs);
}

/// Whether `key` is one of the counters that are read of a `SKEG.STATS` reply.
pub open spec fn is_aggregate_key(key: Seq<char>) -> bool {
    key == "cache_bytes"@ || key == "evictions"@ || key == "n_keys"@ || key == "budget"@
}

/// Whether `key` is one of the counters that are read of a `SKEG.SHARDS` line.
pub open spec fn is_shard_key(key: Seq<char>) -> bool {
    key == "shard"@ || key == "cache_bytes"@ || key == "evictions"@ || key == "n_keys"@
}

proof fn lemma_latest_of_known(
    pairs: Seq<(Seq<char>, nat)>,
    known: spec_fn((Seq<char>, nat)) -> bool,
    key: Seq<char>,
    max: nat,
)
    requires
        forall|n: nat| #[trigger] known((key, n)),
    ensures
        stats::latest(pairs.filter(known), key, max) == stats::latest(pairs, key, max),
    decreases pairs.len(),
{
    reveal(Seq::filter);
    if pairs.len() > 0 {
        let before = pairs.drop_last();
        lemma_latest_of_known(before, known, key, max);
        let p = pairs.last();
        if known(p) {
            lemma_latest_of_push(before.filter(known), p.0, p.1, key, max);
        } else {
            assert(p != (key, p.1));
        }
    }
}

/// Fields that are not known, wherever they stand, do not change what is read
/// of a `SKEG.STATS` reply or of a `SKEG.SHARDS` line.
pub proof fn law_unknown_fields_are_ignored(s: Seq<char>)
    ensures
        ({
            let pairs = stats::pairs_of(text::words(s));
            &&& stats::aggregate_of(s) == stats::aggregate_from(
                pairs.filter(|p: (Seq<char>, nat)| is_aggregate_key(p.0)),
            )
            &&& stats::shard_from(pairs) == stats::shard_from(
                pairs.filter(|p: (Seq<char>, nat)| is_shard_key(p.0)),
            )
        }),
{
    let pairs = stats::pairs_of(text::words(s));
    let of_all = |p: (Seq<char>, nat)| is_aggregate_key(p.0);
    lemma_latest_of_known(pairs, of_all, "cache_bytes"@, u64::MAX as nat);
    lemma_latest_of_known(pairs, of_all, "evictions"@, u64::MAX as nat);
    lemma_latest_of_known(pairs, of_all, "n_keys"@, u64::MAX as nat);
    lemma_latest_of_known(pairs, of_all, "budget"@, u64::MAX as nat);
    let of_one = |p: (Seq<char>, nat)| is_shard_key(p.0);
    lemma_latest_of_known(pairs, of_one, "cache_bytes"@, u64::MAX as nat);
    lemma_latest_of_known(pairs, of_one, "evictions"@, u64::MAX as nat);
    lemma_latest_of_known(pairs, of_one, "n_keys"@, u64::MAX as nat);
    lemma_latest_of_known(pairs, of_one, "shard"@, u32::MAX as nat);
}

/// The key of a word; nothing if the word is not `key=value`.
pub open spec fn key_of(w: Seq<char>) -> Option<Seq<char>> {
    match text::halves(w, '=') {
        Some(p) => Some(p.0),
        None => None,
    }
}

/// A word that a newer server adds, such as `future=99`, does not change what
/// is read of a `SKEG.STATS` reply or of a `SKEG.SHARDS` line, unless its key
/// is a known one.
pub proof fn law_added_word_is_ignored(s: Seq<char>, w: Seq<char>)
    requires
        is_word(w),
    ensures
        (key_of(w) matches Some(k) ==> !is_aggregate_key(k)) ==> stats::aggregate_of(spaced(s, w))
            == stats::aggregate_of(s),
        (key_of(w) matches Some(k) ==> !is_shard_key(k)) ==> stats::shard_from(
            stats::pairs_of(text::words(spaced(s, w))),
        ) == stats::shard_from(stats::pairs_of(text::words(s))),
{
    lemma_words_of_spaced(s, w);
    let before = stats::pairs_of(text::words(s));
    assert(text::words(s).push(w).drop_last() =~= text::words(s));
    match stats::pair_of(w) {
        None => {},
        Some(p) => {
            lemma_latest_of_push(before, p.0, p.1, "cache_bytes"@, u64::MAX as nat);
            lemma_latest_of_push(before, p.0, p.1, "evictions"@, u64::MAX as nat);
            lemma_latest_of_push(before, p.0, p.1, "n_keys"@, u64::MAX as nat);
            lemma_latest_of_push(before, p.0, p.1, "budget"@, u64::MAX as nat);
            lemma_latest_of_push(before, p.0, p.1, "shard"@, u32::MAX as nat);
        },
    }
}

/// The status string of a `SKEG.STATS` reply.
pub open spec fn aggregate_line(a: AggregateStats) -> Seq<char> {
    spaced(
        spaced(
            spaced(
                counter_field("cache_bytes"@, a.cache_bytes as nat),
                counter_field("evictions"@, a.evictions as nat),
            ),
            counter_field("n_keys"@, a.n_keys as nat),
        ),
        counter_field("budget"@, a.budget as nat),
    )
}

/// The counters that a server writes are read back.
pub proof fn law_aggregate_is_read_back(a: AggregateStats)
    ensures
        stats::aggregate_of(aggregate_line(a)) == a,
{
    lemma_keys();
    let c = (("cache_bytes"@), a.cache_bytes as nat);
    let e = (("evictions"@), a.evictions as nat);
    let k = (("n_keys"@), a.n_keys as nat);
    let b = (("budget"@), a.budget as nat);
    let s1 = counter_field(c.0, c.1);
    let s2 = spaced(s1, counter_field(e.0, e.1));
    let s3 = spaced(s2, counter_field(k.0, k.1));
    lemma_pairs_of_field(c.0, c.1);
    lemma_pairs_of_spaced(s1, e.0, e.1);
    lemma_pairs_of_spaced(s2, k.0, k.1);
    lemma_pairs_of_spaced(s3, b.0, b.1);
    lemma_four_pairs(c, e, k, b, c.0, u64::MAX as nat);
    lemma_four_pairs(c, e, k, b, e.0, u64::MAX as nat);
    lemma_four_pairs(c, e, k, b, k.0, u64::MAX as nat);
    lemma_four_pairs(c, e, k, b, b.0, u64::MAX as nat);
}

proof fn lemma_four_pairs(
    a: (Seq<char>, nat),
    b: (Seq<char>, nat),
    c: (Seq<char>, nat),
    d: (Seq<char>, nat),
    key: Seq<char>,
    max: nat,
)
    ensures
        stats::latest(seq![a].push(b).push(c).push(d), key, max) == (if d.0 == key && d.1 <= max {
            d.1
        } else if c.0 == key && c.1 <= max {
            c.1
        } else if b.0 == key && b.1 <= max {
            b.1
        } else if a.0 == key && a.1 <= max {
            a.1
        } else {
            0
        }),
{
    lemma_latest_of_push(seq![a].push(b).push(c), d.0, d.1, key, max);
    lemma_latest_of_push(seq![a].push(b), c.0, c.1, key, max);
    lemma_latest_of_push(seq![a], b.0, b.1, key, max);
    lemma_latest_of_push(seq![], a.0, a.1, key, max);
    assert(Seq::<(Seq<char>, nat)>::empty().push(a) =~= seq![a]);
}

/// Lines with a line end between each two of them.
pub open spec fn joined(lines: Seq<Seq<char>>) -> Seq<char>
    decreases lines.len(),
{
    if lines.len() == 0 {
        seq![]
    } else if lines.len() == 1 {
        lines[0]
    } else {
        lines[0] + seq!['\n'] + joined(lines.drop_first())
    }
}

/// Whether `s` can stand as a line: it holds no line end, it is not empty and
/// no carriage return ends it.
pub open spec fn is_line(s: Seq<char>) -> bool {
    &&& s.len() > 0
    &&& s.last() != '\r'
    &&& forall|i: int| 0 <= i < s.len() ==> #[trigger] s[i] != '\n'
}

proof fn lemma_lines_of_joined(lines: Seq<Seq<char>>)
    requires
        forall|i: int| 0 <= i < lines.len() ==> is_line(#[trigger] lines[i]),
    ensures
        text::lines(joined(lines)) == lines,
    decreases lines.len(),
{
    if lines.len() == 0 {
        assert(text::lines(joined(lines)) =~= lines);
    } else {
        let first = lines[0];
        let n = first.len() as int;
        assert(is_line(first));
        if lines.len() == 1 {
            text::lemma_until_char_is(first, '\n', n);
            assert(text::lines(joined(lines)) =~= lines);
        } else {
            let rest = lines.drop_first();
            let s = joined(lines);
            lemma_lines_of_joined(rest);
            assert forall|i: int| 0 <= i < n implies s[i] != '\n' by {
                assert(s[i] == first[i]);
            }
            text::lemma_until_char_is(s, '\n', n);
            assert(s.take(n) =~= first);
            assert(s.skip(n + 1) =~= joined(rest));
            assert(text::lines(s) =~= lines);
        }
    }
}

proof fn lemma_spaced_is_line(s: Seq<char>, w: Seq<char>)
    requires
        is_line(s),
        is_word(w),
    ensures
        is_line(spaced(s, w)),
{
    let t = spaced(s, w);
    assert(t.last() == w[w.len() - 1]);
    assert forall|i: int| 0 <= i < t.len() implies #[trigger] t[i] != '\n' by {
        if i < s.len() {
            assert(t[i] == s[i]);
        } else if i > s.len() {
            assert(t[i] == w[i - s.len() - 1]);
        }
    }
}

proof fn lemma_word_is_line(w: Seq<char>)
    requires
        is_word(w),
    ensures
        is_line(w),
{
    assert(!text::is_space(w[w.len() - 1]));
    assert forall|i: int| 0 <= i < w.len() implies #[trigger] w[i] != '\n' by {
        assert(!text::is_space(w[i]));
    }
}

/// The line on one shard of a `SKEG.SHARDS` reply.
pub open spec fn shard_text(s: ShardStats) -> Seq<char> {
    spaced(
        spaced(
            spaced(
                counter_field("shard"@, s.shard_id as nat),
                counter_field("cache_bytes"@, s.cache_bytes as nat),
            ),
            counter_field("evictions"@, s.evictions as nat),
        ),
        counter_field("n_keys"@, s.n_keys as nat),
    )
}

proof fn lemma_shard_text(s: ShardStats)
    ensures
        is_line(shard_text(s)),
        stats::shard_from(stats::pairs_of(text::words(shard_text(s)))) == s,
{
    lemma_keys();
    let i = (("shard"@), s.shard_id as nat);
    let c = (("cache_bytes"@), s.cache_bytes as nat);
    let e = (("evictions"@), s.evictions as nat);
    let k = (("n_keys"@), s.n_keys as nat);
    let s1 = counter_field(i.0, i.1);
    let s2 = spaced(s1, counter_field(c.0, c.1));
    let s3 = spaced(s2, counter_field(e.0, e.1));
    lemma_pairs_of_field(i.0, i.1);
    lemma_pairs_of_spaced(s1, c.0, c.1);
    lemma_pairs_of_spaced(s2, e.0, e.1);
    lemma_pairs_of_spaced(s3, k.0, k.1);
    lemma_four_pairs(i, c, e, k, i.0, u32::MAX as nat);
    lemma_four_pairs(i, c, e, k, c.0, u64::MAX as nat);
    lemma_four_pairs(i, c, e, k, e.0, u64::MAX as nat);
    lemma_four_pairs(i, c, e, k, k.0, u64::MAX as nat);
    lemma_counter_field(i.0, i.1);
    lemma_counter_field(c.0, c.1);
    lemma_counter_field(e.0, e.1);
    lemma_counter_field(k.0, k.1);
    lemma_word_is_line(s1);
    lemma_spaced_is_line(s1, counter_field(c.0, c.1));
    lemma_spaced_is_line(s2, counter_field(e.0, e.1));
    lemma_spaced_is_line(s3, counter_field(k.0, k.1));
}

proof fn lemma_shards_from(shards: Seq<ShardStats>)
    ensures
        stats::shards_from(shards.map_values(|s: ShardStats| shard_text(s))) == shards,
    decreases shards.len(),
{
    let lines = shards.map_values(|s: ShardStats| shard_text(s));
    if shards.len() == 0 {
        assert(stats::shards_from(lines) =~= shards);
    } else {
        let before = shards.drop_last();
        lemma_shards_from(before);
        lemma_shard_text(shards.last());
        assert(lines.drop_last() =~= before.map_values(|s: ShardStats| shard_text(s)));
        assert(stats::shards_from(lines) =~= shards);
    }
}

/// The shards that a server lists, one line for each, are read back in order.
pub proof fn law_shards_are_read_back(shards: Seq<ShardStats>)
    ensures
        stats::shards_of(joined(shards.map_values(|s: ShardStats| shard_text(s)))) == shards,
{
    let lines = shards.map_values(|s: ShardStats| shard_text(s));
    assert forall|i: int| 0 <= i < lines.len() implies is_line(#[trigger] lines[i]) by {
        lemma_shard_text(shards[i]);
    }
    lemma_lines_of_joined(lines);
    lemma_shards_from(shards);
}

/// Whether the parser reads status and error lines at the start of `b`, as
/// [`stats::fetch`] ensures of whatever it receives.
pub open spec fn lines_are_read(b: Seq<u8>) -> bool {
    resp::lines_are_read(b, resp::parsed(b))
}

/// A server that refuses `HELLO 3` with an error line ends the call, with that
/// line as the error, whatever it sends after it.
pub proof fn law_refused_hello_ends_the_call(line: Seq<char>, rest: Seq<u8>)
    requires
        resp::is_one_line(line),
    ensures
        ({
            let b = resp::line_bytes(0x2d, line) + rest;
            let state = stats::FetchStateView { stage: stats::StageView::Hello, received: seq![] };
            lines_are_read(b) ==> stats::after_chunk(state, b) == stats::FetchStepView::Fail(
                stats::FetchErrorView::HelloRefused(line),
            )
        }),
{
    let b = resp::line_bytes(0x2d, line) + rest;
    assert(Seq::<u8>::empty() + b =~= b);
}

proof fn lemma_line_is_one_line(s: Seq<char>)
    requires
        is_line(s),
    ensures
        resp::is_one_line(s),
{
    assert forall|i: int| 0 <= i < s.len() - 1 implies !(#[trigger] s[i] == '\r' && s[i + 1]
        == '\n') by {
        assert(s[i + 1] != '\n');
    }
}

/// The status line that a server answers `SKEG.STATS` with gives its counters,
/// and the call goes on with `SKEG.SHARDS`.
pub proof fn law_status_line_gives_the_counters(
    info: stats::ServerInfoView,
    a: AggregateStats,
    rest: Seq<u8>,
)
    ensures
        ({
            let b = resp::line_bytes(0x2b, aggregate_line(a)) + rest;
            let state = stats::FetchStateView {
                stage: stats::StageView::Stats { info },
                received: seq![],
            };
            lines_are_read(b) ==> stats::after_chunk(state, b) == stats::enter(
                stats::StageView::Shards { info, aggregate: a },
            )
        }),
{
    lemma_keys();
    lemma_counter_field("cache_bytes"@, a.cache_bytes as nat);
    lemma_counter_field("evictions"@, a.evictions as nat);
    lemma_counter_field("n_keys"@, a.n_keys as nat);
    lemma_counter_field("budget"@, a.budget as nat);
    let s1 = counter_field("cache_bytes"@, a.cache_bytes as nat);
    let s2 = spaced(s1, counter_field("evictions"@, a.evictions as nat));
    let s3 = spaced(s2, counter_field("n_keys"@, a.n_keys as nat));
    lemma_word_is_line(s1);
    lemma_spaced_is_line(s1, counter_field("evictions"@, a.evictions as nat));
    lemma_spaced_is_line(s2, counter_field("n_keys"@, a.n_keys as nat));
    lemma_spaced_is_line(s3, counter_field("budget"@, a.budget as nat));
    lemma_line_is_one_line(aggregate_line(a));
    law_aggregate_is_read_back(a);
    let b = resp::line_bytes(0x2b, aggregate_line(a)) + rest;
    assert(Seq::<u8>::empty() + b =~= b);
}

/// White space after the last word does not matter.
proof fn lemma_words_of_push(s: Seq<char>, c: char)
    requires
        text::is_space(c),
    ensures
        text::words(s.push(c)) == text::words(s),
    decreases s.len(),
{
    let t = s.push(c);
    if s.len() == 0 {
        assert(t.drop_first() =~= s);
    } else if text::is_space(s[0]) {
        assert(t.drop_first() =~= s.drop_first().push(c));
        lemma_words_of_push(s.drop_first(), c);
    } else {
        text::lemma_until_space(s);
        let n = text::until_space(s) as int;
        assert forall|i: int| 0 <= i < n implies !text::is_space(#[trigger] t[i]) by {
            assert(t[i] == s[i]);
        }
        text::lemma_until_space_is(t, n);
        assert(t.take(n) =~= s.take(n));
        if n >= s.len() {
            assert(s.take(n) =~= s);
            assert(t.skip(n + 1) =~= seq![]);
            assert(text::words(t.skip(n + 1)) =~= seq![]);
            assert(text::words(t) =~= text::words(s));
        } else {
            assert(t.skip(n + 1) =~= s.skip(n + 1).push(c));
            lemma_words_of_push(s.skip(n + 1), c);
        }
    }
}

proof fn lemma_words_without_cr(s: Seq<char>)
    ensures
        text::words(text::without_cr(s)) == text::words(s),
{
    if s.len() > 0 && s.last() == '\r' {
        assert(s.drop_last().push('\r') =~= s);
        lemma_words_of_push(s.drop_last(), '\r');
    }
}

/// Two texts with a line end between them.
pub open spec fn two_texts(a: Seq<char>, b: Seq<char>) -> Seq<char> {
    a + seq!['\n'] + b
}

/// The first line of two texts, and what follows it.
proof fn lemma_lines_of_two_texts(a: Seq<char>, b: Seq<char>)
    ensures
        ({
            let n = text::until_char(a, '\n') as int;
            if n < a.len() {
                &&& text::lines(a) == seq![text::without_cr(a.take(n))] + text::lines(
                    a.skip(n + 1),
                )
                &&& text::lines(two_texts(a, b)) == seq![text::without_cr(a.take(n))]
                    + text::lines(two_texts(a.skip(n + 1), b))
            } else {
                &&& text::lines(a) == (if a.len() == 0 {
                    seq![]
                } else {
                    seq![a]
                })
                &&& text::lines(two_texts(a, b)) == seq![text::without_cr(a)] + text::lines(b)
            }
        }),
{
    let s = two_texts(a, b);
    text::lemma_until_char(a, '\n');
    let n = text::until_char(a, '\n') as int;
    assert forall|i: int| 0 <= i < n implies s[i] != '\n' by {
        assert(s[i] == a[i]);
    }
    text::lemma_until_char_is(s, '\n', n);
    assert(s.take(n) =~= a.take(n));
    if n < a.len() {
        assert(s.skip(n + 1) =~= two_texts(a.skip(n + 1), b));
    } else {
        assert(a.take(n) =~= a);
        assert(s.skip(n + 1) =~= b);
    }
}

proof fn lemma_vindexes_from_add(a: Seq<Seq<char>>, b: Seq<Seq<char>>)
    ensures
        stats::vindexes_from(a + b) == stats::vindexes_from(a) + stats::vindexes_from(b),
    decreases b.len(),
{
    if b.len() == 0 {
        assert(a + b =~= a);
        assert(stats::vindexes_from(a) + stats::vindexes_from(b) =~= stats::vindexes_from(a));
    } else {
        lemma_vindexes_from_add(a, b.drop_last());
        assert((a + b).drop_last() =~= a + b.drop_last());
        assert((a + b).last() == b.last());
        assert(stats::vindexes_from(a + b) =~= stats::vindexes_from(a) + stats::vindexes_from(b));
    }
}

proof fn lemma_shards_from_add(a: Seq<Seq<char>>, b: Seq<Seq<char>>)
    ensures
        stats::shards_from(a + b) == stats::shards_from(a) + stats::shards_from(b),
    decreases b.len(),
{
    if b.len() == 0 {
        assert(a + b =~= a);
        assert(stats::shards_from(a) + stats::shards_from(b) =~= stats::shards_from(a));
    } else {
        lemma_shards_from_add(a, b.drop_last());
        assert((a + b).drop_last() =~= a + b.drop_last());
        assert((a + b).last() == b.last());
        assert(stats::shards_from(a + b) =~= stats::shards_from(a) + stats::shards_from(b));
    }
}

proof fn lemma_one_line_from(line: Seq<char>)
    ensures
        stats::vindexes_from(seq![text::without_cr(line)]) == stats::vindexes_from(seq![line]),
        line != seq!['\r'] ==> stats::shards_from(seq![text::without_cr(line)])
            == stats::shards_from(seq![line]),
        line.len() == 0 ==> stats::vindexes_from(seq![line]) == Seq::<(Seq<char>, u32)>::empty(),
        line.len() == 0 ==> stats::shards_from(seq![line]) == Seq::<ShardStats>::empty(),
{
    lemma_words_without_cr(line);
    assert(seq![line].drop_last() =~= seq![]);
    assert(seq![text::without_cr(line)].drop_last() =~= seq![]);
    assert(stats::vindexes_from(seq![line].drop_last()) =~= seq![]);
    assert(stats::shards_from(seq![line].drop_last()) =~= seq![]);
    assert(seq![line].last() == line);
    if line.len() == 0 {
        assert(text::words(line) =~= seq![]);
        assert(stats::fields_of(text::words(line)) =~= seq![]);
        assert(stats::latest_text(stats::fields_of(text::words(line)), "name"@) =~= seq![]);
    }
    if line.len() == 1 && line.last() == '\r' {
        assert(line =~= seq!['\r']);
    }
}

/// The lines of a `SKEG.VINDEX.LIST` reply are read one by one: two texts with
/// a line end between them list what the one lists, and then what the other
/// lists.
pub proof fn law_vindex_lines_are_read_one_by_one(a: Seq<char>, b: Seq<char>)
    ensures
        stats::vindexes_of(two_texts(a, b)) == stats::vindexes_of(a) + stats::vindexes_of(b),
    decreases a.len(),
{
    lemma_lines_of_two_texts(a, b);
    let n = text::until_char(a, '\n') as int;
    if n < a.len() {
        let first = seq![text::without_cr(a.take(n))];
        let c = a.skip(n + 1);
        law_vindex_lines_are_read_one_by_one(c, b);
        lemma_vindexes_from_add(first, text::lines(c));
        lemma_vindexes_from_add(first, text::lines(two_texts(c, b)));
        assert(stats::vindexes_of(two_texts(a, b)) =~= stats::vindexes_of(a) + stats::vindexes_of(
            b,
        ));
    } else {
        lemma_vindexes_from_add(seq![text::without_cr(a)], text::lines(b));
        lemma_one_line_from(a);
        assert(stats::vindexes_of(two_texts(a, b)) =~= stats::vindexes_of(a) + stats::vindexes_of(
            b,
        ));
    }
}

/// Whether the last line of `s` is a carriage return and nothing else.
pub open spec fn ends_in_lone_cr(s: Seq<char>) -> bool {
    s.len() > 0 && s.last() == '\r' && (s.len() == 1 || s[s.len() - 2] == '\n')
}

/// The lines of a `SKEG.SHARDS` reply are read one by one: two texts with a
/// line end between them list what the one lists, and then what the other
/// lists. A lone carriage return at the end is a line, and no longer one when
/// a line end follows it.
pub proof fn law_shard_lines_are_read_one_by_one(a: Seq<char>, b: Seq<char>)
    requires
        !ends_in_lone_cr(a),
    ensures
        stats::shards_of(two_texts(a, b)) == stats::shards_of(a) + stats::shards_of(b),
    decreases a.len(),
{
    lemma_lines_of_two_texts(a, b);
    let n = text::until_char(a, '\n') as int;
    if n < a.len() {
        text::lemma_until_char(a, '\n');
        let first = seq![text::without_cr(a.take(n))];
        let c = a.skip(n + 1);
        if c.len() == 1 {
            assert(c.last() == a.last());
            assert(a[a.len() - 2] == '\n');
        } else if c.len() > 1 {
            assert(c.last() == a.last());
            assert(c[c.len() - 2] == a[a.len() - 2]);
        }
        law_shard_lines_are_read_one_by_one(c, b);
        lemma_shards_from_add(first, text::lines(c));
        lemma_shards_from_add(first, text::lines(two_texts(c, b)));
        assert(stats::shards_of(two_texts(a, b)) =~= stats::shards_of(a) + stats::shards_of(b));
    } else {
        lemma_shards_from_add(seq![text::without_cr(a)], text::lines(b));
        lemma_one_line_from(a);
        assert(stats::shards_of(two_texts(a, b)) =~= stats::shards_of(a) + stats::shards_of(b));
    }
}

/// What a server lists of one VINDEX.
pub struct ListedVindex {
    pub name: Seq<char>,
    pub dim: u32,
    pub kind: Seq<char>,
    pub backend: Seq<char>,
    pub n_vectors: u64,
}

impl ListedVindex {
    /// Whether the texts hold no white space, and there is a name.
    pub open spec fn can_be_listed(self) -> bool {
        is_word(self.name) && is_value(self.kind) && is_value(self.backend)
    }

    /// The line of a `SKEG.VINDEX.LIST` reply.
    pub open spec fn line(self) -> Seq<char> {
        spaced(
            spaced(
                spaced(
                    spaced(field("name"@, self.name), counter_field("dim"@, self.dim as nat)),
                    field("kind"@, self.kind),
                ),
                field("backend"@, self.backend),
            ),
            counter_field("n_vectors"@, self.n_vectors as nat),
        )
    }
}

proof fn lemma_fields_of_spaced(s: Seq<char>, key: Seq<char>, value: Seq<char>)
    requires
        is_line(s),
        is_key(key),
        is_value(value),
    ensures
        stats::fields_of(text::words(spaced(s, field(key, value)))) == stats::fields_of(
            text::words(s),
        ).push((key, value)),
        is_line(spaced(s, field(key, value))),
{
    let w = field(key, value);
    lemma_field_is_word(key, value);
    lemma_halves_of_field(key, value);
    lemma_words_of_spaced(s, w);
    lemma_spaced_is_line(s, w);
    assert(text::words(s).push(w).drop_last() =~= text::words(s));
}

proof fn lemma_vindex_from_push(
    fields: Seq<(Seq<char>, Seq<char>)>,
    key: Seq<char>,
    value: Seq<char>,
)
    requires
        key != "name"@,
        key != "dim"@,
    ensures
        stats::vindex_from(fields.push((key, value))) == stats::vindex_from(fields),
{
    assert(fields.push((key, value)).drop_last() =~= fields);
}

proof fn lemma_other_keys()
    ensures
        is_key("kind"@),
        is_key("backend"@),
        is_key("n_vectors"@),
        "kind"@ != "name"@,
        "kind"@.len() == 4,
        "backend"@.len() == 7,
        "n_vectors"@.len() == 9,
{
    reveal_strlit("name");
    reveal_strlit("kind");
    reveal_strlit("backend");
    reveal_strlit("n_vectors");
    assert("kind"@ =~= seq!['k', 'i', 'n', 'd']);
    assert("kind"@[0] != "name"@[0]);
    assert("backend"@ =~= seq!['b', 'a', 'c', 'k', 'e', 'n', 'd']);
    assert("n_vectors"@ =~= seq!['n', '_', 'v', 'e', 'c', 't', 'o', 'r', 's']);
}

proof fn lemma_decimal_is_word(n: nat)
    ensures
        is_word(number::decimal(n)),
{
    let s = number::decimal(n);
    number::lemma_decimal_is_read_back(n);
    assert forall|i: int| 0 <= i < s.len() implies !text::is_space(#[trigger] s[i]) by {
        assert(number::is_digit(s[i]));
    }
}

proof fn lemma_vindex_line(v: ListedVindex)
    requires
        v.can_be_listed(),
    ensures
        is_line(v.line()),
        stats::vindex_from(stats::fields_of(text::words(v.line()))) == (v.name, v.dim),
{
    lemma_keys();
    lemma_other_keys();
    let digits = number::decimal(v.dim as nat);
    let count = number::decimal(v.n_vectors as nat);
    lemma_decimal_is_word(v.dim as nat);
    lemma_decimal_is_word(v.n_vectors as nat);
    let name = ("name"@, v.name);
    let dim = ("dim"@, digits);
    let s1 = field("name"@, v.name);
    let s2 = spaced(s1, field("dim"@, digits));
    let s3 = spaced(s2, field("kind"@, v.kind));
    let s4 = spaced(s3, field("backend"@, v.backend));
    lemma_field_is_word("name"@, v.name);
    lemma_halves_of_field("name"@, v.name);
    lemma_one_word(s1);
    lemma_word_is_line(s1);
    assert(seq![s1].drop_last() =~= seq![]);
    assert(stats::fields_of(seq![s1].drop_last()) =~= seq![]);
    assert(stats::fields_of(seq![s1]) =~= seq![name]);
    lemma_fields_of_spaced(s1, "dim"@, digits);
    lemma_fields_of_spaced(s2, "kind"@, v.kind);
    lemma_fields_of_spaced(s3, "backend"@, v.backend);
    lemma_fields_of_spaced(s4, "n_vectors"@, count);
    let f2 = seq![name].push(dim);
    let f3 = f2.push(("kind"@, v.kind));
    let f4 = f3.push(("backend"@, v.backend));
    lemma_vindex_from_push(f4, "n_vectors"@, count);
    lemma_vindex_from_push(f3, "backend"@, v.backend);
    lemma_vindex_from_push(f2, "kind"@, v.kind);
    number::lemma_uint_of_decimal(v.dim as nat, u32::MAX as nat);
    assert(f2.drop_last() =~= seq![name]);
    assert(f2.last() == dim);
    assert("dim"@ != "name"@);
    assert(stats::latest_text(seq![name], "name"@) == v.name);
    assert(stats::latest_text(f2, "name"@) == v.name);
    assert(stats::latest_number(f2, "dim"@, u32::MAX as nat) == v.dim);
}

proof fn lemma_vindexes_from(vindexes: Seq<ListedVindex>)
    requires
        forall|i: int| 0 <= i < vindexes.len() ==> (#[trigger] vindexes[i]).can_be_listed(),
    ensures
        stats::vindexes_from(vindexes.map_values(|v: ListedVindex| v.line()))
            == vindexes.map_values(|v: ListedVindex| (v.name, v.dim)),
    decreases vindexes.len(),
{
    let lines = vindexes.map_values(|v: ListedVindex| v.line());
    let wanted = vindexes.map_values(|v: ListedVindex| (v.name, v.dim));
    if vindexes.len() == 0 {
        assert(stats::vindexes_from(lines) =~= wanted);
    } else {
        let before = vindexes.drop_last();
        assert forall|i: int| 0 <= i < before.len() implies (
        #[trigger] before[i]).can_be_listed() by {
            assert(before[i] == vindexes[i]);
        }
        lemma_vindexes_from(before);
        assert(vindexes[vindexes.len() - 1].can_be_listed());
        lemma_vindex_line(vindexes.last());
        assert(lines.drop_last() =~= before.map_values(|v: ListedVindex| v.line()));
        assert(wanted.drop_last() =~= before.map_values(|v: ListedVindex| (v.name, v.dim)));
        assert(stats::vindexes_from(lines) =~= wanted);
    }
}

/// Of the VINDEXes that a server lists, one line for each, the names and
/// dimensions are read back in order.
pub proof fn law_vindexes_are_read_back(vindexes: Seq<ListedVindex>)
    requires
        forall|i: int| 0 <= i < vindexes.len() ==> (#[trigger] vindexes[i]).can_be_listed(),
    ensures
        stats::vindexes_of(joined(vindexes.map_values(|v: ListedVindex| v.line())))
            == vindexes.map_values(|v: ListedVindex| (v.name, v.dim)),
{
    let lines = vindexes.map_values(|v: ListedVindex| v.line());
    assert forall|i: int| 0 <= i < lines.len() implies is_line(#[trigger] lines[i]) by {
        assert(vindexes[i].can_be_listed());
        lemma_vindex_line(vindexes[i]);
    }
    lemma_lines_of_joined(lines);
    lemma_vindexes_from(vindexes);
}

} // verus!
