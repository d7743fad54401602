//! What holds of reading a server's replies, field by field.

use crate::number;
use crate::resp;
use crate::stats::{self, AggregateStats, ShardStats};
use crate::stats_laws;
use crate::text;
use crate::text_laws;
use vstd::prelude::*;
use vstd::string::*;
use vstd::utf8;

verus! {

/// The text of a scalar is the text that it holds: of a string that text, of
/// bytes the text that they encode, of an integer its decimal form and of a
/// truth value its name. Anything else has no text.
pub proof fn law_scalars_are_shown_as_they_are(t: Seq<char>, i: int, pairs: Seq<
    (resp::ScalarView, resp::ScalarView),
>)
    ensures
        resp::scalar_text(resp::ScalarView::Simple(t)) == t,
        resp::scalar_text(resp::ScalarView::Bulk(utf8::encode_utf8(t))) == t,
        resp::scalar_text(resp::ScalarView::Verbatim(utf8::encode_utf8(t))) == t,
        resp::scalar_text(resp::ScalarView::Double(t)) == t,
        i >= 0 ==> number::writes(resp::scalar_text(resp::ScalarView::Integer(i)), i as nat),
        i < 0 ==> resp::scalar_text(resp::ScalarView::Integer(i)) == seq!['-'] + resp::scalar_text(
            resp::ScalarView::Integer(-i),
        ),
        resp::scalar_text(resp::ScalarView::Boolean(true)) == seq!['t', 'r', 'u', 'e'],
        resp::scalar_text(resp::ScalarView::Boolean(false)) == seq!['f', 'a', 'l', 's', 'e'],
        resp::scalar_text(resp::ScalarView::Other).len() == 0,
        resp::reply_text(resp::ReplyView::Single(resp::ScalarView::Simple(t))) == t,
        resp::reply_text(resp::ReplyView::Single(resp::ScalarView::Bulk(utf8::encode_utf8(t))))
            == t,
        resp::reply_text(resp::ReplyView::Single(resp::ScalarView::Verbatim(utf8::encode_utf8(t))))
            == t,
        resp::reply_text(resp::ReplyView::Error(t)).len() == 0,
        resp::reply_text(resp::ReplyView::Pairs(pairs)).len() == 0,
{
    utf8::encode_utf8_valid_utf8(t);
    utf8::encode_utf8_decode_utf8(t);
    reveal_strlit("true");
    reveal_strlit("false");
    reveal_strlit("");
    assert("true"@ =~= seq!['t', 'r', 'u', 'e']);
    assert("false"@ =~= seq!['f', 'a', 'l', 's', 'e']);
    if i >= 0 {
        assert(number::zeros(0) + number::decimal(i as nat) =~= number::decimal(i as nat));
        assert(number::writes(number::decimal(i as nat), i as nat));
    }
}

/// A word is a pair exactly if it is a key, a `=` and what writes a number
/// that a counter can hold.
pub proof fn law_pairs_are_keys_and_numbers(key: Seq<char>, value: Seq<char>, n: nat)
    requires
        text_laws::lacks(key, '='),
    ensures
        stats::pair_of(key + seq!['='] + value) == Some((key, n)) <==> n <= u64::MAX
            && number::writes(value, n),
        stats::pair_of(key + seq!['='] + value) matches Some(p) ==> p.0 == key,
        stats::pair_of(key) is None,
{
    text_laws::law_separators_part_pieces(key, '=', value);
    number::law_numbers_are_read_as_written(value, n, u64::MAX as nat);
}

/// The pairs and the fields among words are those of each word in turn: what
/// is none is passed over, wherever it stands.
pub proof fn law_words_are_read_one_by_one(
    a: Seq<Seq<char>>,
    w: Seq<char>,
    b: Seq<Seq<char>>,
)
    ensures
        stats::pairs_of(a + b) == stats::pairs_of(a) + stats::pairs_of(b),
        stats::pairs_of(seq![w]) == (match stats::pair_of(w) {
            Some(p) => seq![p],
            None => seq![],
        }),
        stats::fields_of(a + b) == stats::fields_of(a) + stats::fields_of(b),
        stats::fields_of(seq![w]) == (match text::halves(w, '=') {
            Some(p) => seq![p],
            None => seq![],
        }),
    decreases b.len(),
{
    let one = seq![w];
    assert(one.drop_last() =~= seq![]);
    assert(one.last() == w);
    assert(stats::pairs_of(one.drop_last()) =~= seq![]);
    assert(stats::fields_of(one.drop_last()) =~= seq![]);
    match stats::pair_of(w) {
        Some(p) => {
            assert(Seq::empty().push(p) =~= seq![p]);
        },
        None => {},
    }
    match text::halves(w, '=') {
        Some(p) => {
            assert(Seq::empty().push(p) =~= seq![p]);
        },
        None => {},
    }
    if b.len() == 0 {
        assert(a + b =~= a);
        assert(stats::pairs_of(a) + stats::pairs_of(b) =~= stats::pairs_of(a));
        assert(stats::fields_of(a) + stats::fields_of(b) =~= stats::fields_of(a));
    } else {
        law_words_are_read_one_by_one(a, w, b.drop_last());
        assert((a + b).drop_last() =~= a + b.drop_last());
        assert((a + b).last() == b.last());
        assert(stats::pairs_of(a + b) =~= stats::pairs_of(a) + stats::pairs_of(b));
        assert(stats::fields_of(a + b) =~= stats::fields_of(a) + stats::fields_of(b));
    }
}

/// Whether `i` is the last position at which `key` stands.
pub open spec fn stands_last<V>(pairs: Seq<(Seq<char>, V)>, key: Seq<char>, i: int) -> bool {
    &&& 0 <= i < pairs.len()
    &&& pairs[i].0 == key
    &&& forall|j: int| i < j < pairs.len() ==> (#[trigger] pairs[j]).0 != key
}

/// Whether `key` stands nowhere.
pub open spec fn never_stands<V>(pairs: Seq<(Seq<char>, V)>, key: Seq<char>) -> bool {
    forall|j: int| 0 <= j < pairs.len() ==> (#[trigger] pairs[j]).0 != key
}

proof fn lemma_latest(pairs: Seq<(Seq<char>, nat)>, key: Seq<char>, max: nat, i: int)
    ensures
        stands_last(pairs, key, i) && pairs[i].1 <= max ==> stats::latest(pairs, key, max)
            == pairs[i].1,
        never_stands(pairs, key) ==> stats::latest(pairs, key, max) == 0,
        0 <= i < pairs.len() && !(pairs[i].0 == key && pairs[i].1 <= max) ==> stats::latest(
            pairs.remove(i),
            key,
            max,
        ) == stats::latest(pairs, key, max),
    decreases pairs.len(),
{
    if pairs.len() > 0 {
        let before = pairs.drop_last();
        let n = pairs.len() - 1;
        lemma_latest(before, key, max, i);
        assert(pairs.last() == pairs[n]);
        if stands_last(pairs, key, i) && i < n {
            assert(pairs[n].0 != key);
            assert forall|j: int| i < j < before.len() implies (#[trigger] before[j]).0 != key by {
                assert(before[j] == pairs[j]);
            }
        }
        if never_stands(pairs, key) {
            assert(pairs[n].0 != key);
            assert forall|j: int| 0 <= j < before.len() implies (#[trigger] before[j]).0
                != key by {
                assert(before[j] == pairs[j]);
            }
        }
        if 0 <= i < n {
            assert(pairs.remove(i).drop_last() =~= before.remove(i));
            assert(pairs.remove(i).last() == pairs[n]);
        } else if i == n {
            assert(pairs.remove(i) =~= before);
        }
    }
}

proof fn lemma_latest_text(fields: Seq<(Seq<char>, Seq<char>)>, key: Seq<char>, i: int)
    ensures
        stands_last(fields, key, i) ==> stats::latest_text(fields, key) == fields[i].1,
        never_stands(fields, key) ==> stats::latest_text(fields, key).len() == 0,
        0 <= i < fields.len() && fields[i].0 != key ==> stats::latest_text(fields.remove(i), key)
            == stats::latest_text(fields, key),
    decreases fields.len(),
{
    if fields.len() > 0 {
        let before = fields.drop_last();
        let n = fields.len() - 1;
        lemma_latest_text(before, key, i);
        assert(fields.last() == fields[n]);
        if stands_last(fields, key, i) && i < n {
            assert(fields[n].0 != key);
            assert forall|j: int| i < j < before.len() implies (#[trigger] before[j]).0 != key by {
                assert(before[j] == fields[j]);
            }
        }
        if never_stands(fields, key) {
            assert(fields[n].0 != key);
            assert forall|j: int| 0 <= j < before.len() implies (#[trigger] before[j]).0
                != key by {
                assert(before[j] == fields[j]);
            }
        }
        if 0 <= i < n {
            assert(fields.remove(i).drop_last() =~= before.remove(i));
            assert(fields.remove(i).last() == fields[n]);
        } else if i == n {
            assert(fields.remove(i) =~= before);
        }
    }
}

proof fn lemma_latest_number(
    fields: Seq<(Seq<char>, Seq<char>)>,
    key: Seq<char>,
    max: nat,
    i: int,
    d: nat,
)
    ensures
        stands_last(fields, key, i) && d <= max && number::writes(fields[i].1, d)
            ==> stats::latest_number(fields, key, max) == d,
        never_stands(fields, key) ==> stats::latest_number(fields, key, max) == 0,
        0 <= i < fields.len() && !(fields[i].0 == key && number::uint_of(fields[i].1, max) is Some)
            ==> stats::latest_number(fields.remove(i), key, max) == stats::latest_number(
            fields,
            key,
            max,
        ),
    decreases fields.len(),
{
    if fields.len() > 0 {
        let before = fields.drop_last();
        let n = fields.len() - 1;
        lemma_latest_number(before, key, max, i, d);
        assert(fields.last() == fields[n]);
        if 0 <= i < fields.len() {
            number::law_numbers_are_read_as_written(fields[i].1, d, max);
        }
        if stands_last(fields, key, i) && i < n {
            assert(fields[n].0 != key);
            assert forall|j: int| i < j < before.len() implies (#[trigger] before[j]).0 != key by {
                assert(before[j] == fields[j]);
            }
        }
        if never_stands(fields, key) {
            assert(fields[n].0 != key);
            assert forall|j: int| 0 <= j < before.len() implies (#[trigger] before[j]).0
                != key by {
                assert(before[j] == fields[j]);
            }
        }
        if 0 <= i < n {
            assert(fields.remove(i).drop_last() =~= before.remove(i));
            assert(fields.remove(i).last() == fields[n]);
        } else if i == n {
            assert(fields.remove(i) =~= before);
        }
    }
}

/// A counter is the last number that stands with its own key, in whatever order
/// the keys come, and 0 where its key does not stand.
pub proof fn law_counters_are_read_by_their_keys(pairs: Seq<(Seq<char>, nat)>, i: int)
    requires
        forall|j: int| 0 <= j < pairs.len() ==> (#[trigger] pairs[j]).1 <= u64::MAX,
    ensures
        stands_last(pairs, "cache_bytes"@, i) ==> stats::aggregate_from(pairs).cache_bytes
            == pairs[i].1 && stats::shard_from(pairs).cache_bytes == pairs[i].1,
        stands_last(pairs, "evictions"@, i) ==> stats::aggregate_from(pairs).evictions
            == pairs[i].1 && stats::shard_from(pairs).evictions == pairs[i].1,
        stands_last(pairs, "n_keys"@, i) ==> stats::aggregate_from(pairs).n_keys == pairs[i].1
            && stats::shard_from(pairs).n_keys == pairs[i].1,
        stands_last(pairs, "budget"@, i) ==> stats::aggregate_from(pairs).budget == pairs[i].1,
        stands_last(pairs, "shard"@, i) && pairs[i].1 <= u32::MAX ==> stats::shard_from(
            pairs,
        ).shard_id == pairs[i].1,
        stands_last(pairs, "shard"@, i) && pairs[i].1 > u32::MAX ==> stats::shard_from(
            pairs,
        ).shard_id == stats::shard_from(pairs.remove(i)).shard_id,
        never_stands(pairs, "cache_bytes"@) ==> stats::aggregate_from(pairs).cache_bytes == 0
            && stats::shard_from(pairs).cache_bytes == 0,
        never_stands(pairs, "evictions"@) ==> stats::aggregate_from(pairs).evictions == 0
            && stats::shard_from(pairs).evictions == 0,
        never_stands(pairs, "n_keys"@) ==> stats::aggregate_from(pairs).n_keys == 0
            && stats::shard_from(pairs).n_keys == 0,
        never_stands(pairs, "budget"@) ==> stats::aggregate_from(pairs).budget == 0,
        never_stands(pairs, "shard"@) ==> stats::shard_from(pairs).shard_id == 0,
{
    lemma_latest(pairs, "cache_bytes"@, u64::MAX as nat, i);
    lemma_latest(pairs, "evictions"@, u64::MAX as nat, i);
    lemma_latest(pairs, "n_keys"@, u64::MAX as nat, i);
    lemma_latest(pairs, "budget"@, u64::MAX as nat, i);
    lemma_latest(pairs, "shard"@, u32::MAX as nat, i);
}

/// The name and the dimension of a VINDEX are the last that stand with their
/// own keys, in whatever order the keys come, and other keys do not matter.
pub proof fn law_vindexes_are_read_by_their_keys(
    fields: Seq<(Seq<char>, Seq<char>)>,
    i: int,
    d: nat,
)
    ensures
        stands_last(fields, "name"@, i) ==> stats::vindex_from(fields).0 == fields[i].1,
        never_stands(fields, "name"@) ==> stats::vindex_from(fields).0.len() == 0,
        stands_last(fields, "dim"@, i) && d <= u32::MAX && number::writes(fields[i].1, d)
            ==> stats::vindex_from(fields).1 == d,
        never_stands(fields, "dim"@) ==> stats::vindex_from(fields).1 == 0,
        0 <= i < fields.len() && fields[i].0 != "name"@ && fields[i].0 != "dim"@
            ==> stats::vindex_from(fields.remove(i)) == stats::vindex_from(fields),
{
    lemma_latest_text(fields, "name"@, i);
    lemma_latest_number(fields, "dim"@, u32::MAX as nat, i, d);
}

/// A line of a reply that is not empty is one shard, and one VINDEX if it names
/// one; an empty line is neither.
pub proof fn law_a_line_is_one_entry(line: Seq<char>)
    requires
        text_laws::lacks(line, '\n'),
    ensures
        line.len() > 0 ==> stats::shards_of(line) == seq![
            stats::shard_from(stats::pairs_of(text::words(line))),
        ],
        ({
            let v = stats::vindex_from(stats::fields_of(text::words(line)));
            stats::vindexes_of(line) == (if v.0.len() > 0 {
                seq![v]
            } else {
                seq![]
            })
        }),
        line.len() == 0 ==> stats::shards_of(line) == Seq::<ShardStats>::empty(),
{
    text_laws::law_line_ends_part_lines(line, seq![]);
    if line.len() > 0 {
        let one = seq![line];
        assert(one.drop_last() =~= seq![]);
        assert(one.last() == line);
        assert(stats::shards_from(one.drop_last()) =~= seq![]);
        assert(stats::vindexes_from(one.drop_last()) =~= seq![]);
        let s = stats::shard_from(stats::pairs_of(text::words(line)));
        assert(Seq::empty().push(s) =~= seq![s]);
        let v = stats::vindex_from(stats::fields_of(text::words(line)));
        assert(Seq::empty().push(v) =~= seq![v]);
    } else {
        assert(line =~= seq![]);
        assert(text::words(line) =~= seq![]);
        assert(stats::fields_of(text::words(line)) =~= seq![]);
        assert(stats::vindexes_of(line) =~= seq![]);
    }
}

/// Fields with a space between each two of them.
pub open spec fn joined_fields(fields: Seq<(Seq<char>, Seq<char>)>) -> Seq<char>
    decreases fields.len(),
{
    if fields.len() == 0 {
        seq![]
    } else {
        let f = stats_laws::field(fields.last().0, fields.last().1);
        if fields.len() == 1 {
            f
        } else {
            joined_fields(fields.drop_last()) + seq![' '] + f
        }
    }
}

/// Whether `fields` can stand on a line: keys without a `=`, and keys and
/// values without white space.
pub open spec fn can_be_joined(fields: Seq<(Seq<char>, Seq<char>)>) -> bool {
    forall|i: int|
        0 <= i < fields.len() ==> stats_laws::is_key((#[trigger] fields[i]).0)
            && stats_laws::is_value(fields[i].1)
}

/// The fields of a line are read as they were written, whatever they are and
/// in whatever order they stand.
pub proof fn law_fields_are_read_in_order(fields: Seq<(Seq<char>, Seq<char>)>)
    requires
        can_be_joined(fields),
    ensures
        stats::fields_of(text::words(joined_fields(fields))) == fields,
    decreases fields.len(),
{
    if fields.len() == 0 {
        assert(joined_fields(fields) =~= seq![]);
        assert(text::words(joined_fields(fields)) =~= seq![]);
        assert(stats::fields_of(text::words(joined_fields(fields))) =~= fields);
    } else {
        let before = fields.drop_last();
        let p = fields.last();
        let f = stats_laws::field(p.0, p.1);
        assert(stats_laws::is_key(fields[fields.len() - 1].0));
        assert forall|i: int| 0 <= i < f.len() implies !text::is_space(#[trigger] f[i]) by {
            if i < p.0.len() {
                assert(f[i] == p.0[i]);
            } else if i > p.0.len() {
                assert(f[i] == p.1[i - p.0.len() - 1]);
            }
        }
        text_laws::law_a_word_is_one_word(f);
        text_laws::law_separators_part_pieces(p.0, '=', p.1);
        law_words_are_read_one_by_one(text::words(joined_fields(before)), f, seq![f]);
        if fields.len() == 1 {
            assert(fields =~= seq![p]);
        } else {
            assert forall|i: int| 0 <= i < before.len() implies stats_laws::is_key(
                (#[trigger] before[i]).0,
            ) && stats_laws::is_value(before[i].1) by {
                assert(before[i] == fields[i]);
            }
            law_fields_are_read_in_order(before);
            text_laws::law_white_space_parts_words(joined_fields(before), ' ', f);
            assert(before + seq![p] =~= fields);
        }
    }
}

/// The server's version and mode are what stands last with these two keys in
/// the reply to `HELLO 3`, and nothing where they do not stand.
pub proof fn law_hello_is_read_by_its_keys(
    m: Seq<(resp::ScalarView, resp::ScalarView)>,
    i: int,
)
    ensures
        stats::hello_of(resp::ReplyView::Pairs(m)) is Ok,
        ({
            let info = stats::hello_of(resp::ReplyView::Pairs(m))->Ok_0;
            &&& 0 <= i < m.len() && resp::scalar_text(m[i].0) == "version"@ && (forall|j: int|
                i < j < m.len() ==> resp::scalar_text((#[trigger] m[j]).0) != "version"@)
                ==> info.version == resp::scalar_text(m[i].1)
            &&& 0 <= i < m.len() && resp::scalar_text(m[i].0) == "mode"@ && (forall|j: int|
                i < j < m.len() ==> resp::scalar_text((#[trigger] m[j]).0) != "mode"@)
                ==> info.mode == resp::scalar_text(m[i].1)
            &&& (forall|j: int|
                0 <= j < m.len() ==> resp::scalar_text((#[trigger] m[j]).0) != "version"@)
                ==> info.version.len() == 0
            &&& (forall|j: int|
                0 <= j < m.len() ==> resp::scalar_text((#[trigger] m[j]).0) != "mode"@)
                ==> info.mode.len() == 0
        }),
{
    let fields = stats::pair_texts(m);
    lemma_latest_text(fields, "version"@, i);
    lemma_latest_text(fields, "mode"@, i);
    assert(forall|j: int|
        0 <= j < m.len() ==> (#[trigger] fields[j]) == (
            resp::scalar_text(m[j].0),
            resp::scalar_text(m[j].1),
        ));
    if forall|j: int| i < j < m.len() ==> resp::scalar_text((#[trigger] m[j]).0) != "version"@ {
        assert forall|j: int| i < j < fields.len() && 0 <= i implies (#[trigger] fields[j]).0
            != "version"@ by {
            assert(resp::scalar_text(m[j].0) != "version"@);
        }
    }
    if forall|j: int| i < j < m.len() ==> resp::scalar_text((#[trigger] m[j]).0) != "mode"@ {
        assert forall|j: int| i < j < fields.len() && 0 <= i implies (#[trigger] fields[j]).0
            != "mode"@ by {
            assert(resp::scalar_text(m[j].0) != "mode"@);
        }
    }
    if forall|j: int| 0 <= j < m.len() ==> resp::scalar_text((#[trigger] m[j]).0) != "version"@ {
        assert forall|j: int| 0 <= j < fields.len() implies (#[trigger] fields[j]).0
            != "version"@ by {
            assert(resp::scalar_text(m[j].0) != "version"@);
        }
    }
    if forall|j: int| 0 <= j < m.len() ==> resp::scalar_text((#[trigger] m[j]).0) != "mode"@ {
        assert forall|j: int| 0 <= j < fields.len() implies (#[trigger] fields[j]).0
            != "mode"@ by {
            assert(resp::scalar_text(m[j].0) != "mode"@);
        }
    }
}

/// Pairs with any other key than `version` and `mode`, wherever they stand in
/// the reply to `HELLO 3`, change nothing.
pub proof fn law_other_keys_of_hello_do_not_matter(
    m: Seq<(resp::ScalarView, resp::ScalarView)>,
    at: int,
    other: (resp::ScalarView, resp::ScalarView),
)
    requires
        0 <= at <= m.len(),
        resp::scalar_text(other.0) != "version"@,
        resp::scalar_text(other.0) != "mode"@,
    ensures
        stats::hello_of(resp::ReplyView::Pairs(m.insert(at, other))) == stats::hello_of(
            resp::ReplyView::Pairs(m),
        ),
{
    let more = stats::pair_texts(m.insert(at, other));
    lemma_latest_text(more, "version"@, at);
    lemma_latest_text(more, "mode"@, at);
    assert(more[at].0 == resp::scalar_text(other.0));
    assert(more.remove(at) =~= stats::pair_texts(m));
}

/// A reply to `HELLO 3` that is not a map ends the call: an error line with
/// that line, and anything else as it is.
pub proof fn law_hello_must_be_a_map(e: Seq<char>, s: resp::ScalarView)
    ensures
        stats::after_reply(stats::StageView::Hello, resp::ReplyView::Error(e))
            == stats::FetchStepView::Fail(stats::FetchErrorView::HelloRefused(e)),
        stats::after_reply(stats::StageView::Hello, resp::ReplyView::Single(s))
            == stats::FetchStepView::Fail(stats::FetchErrorView::HelloNotAMap),
{
}

/// What is found in the bytes received decides the step: a reply is that of
/// the stage, bytes that are none end the call with what is wrong with them,
/// and while there is neither, more is received and all of it is kept.
pub proof fn law_what_is_received_decides(
    state: stats::FetchStateView,
    chunk: Seq<u8>,
    reply: resp::ReplyView,
    e: Seq<char>,
)
    requires
        chunk.len() > 0,
    ensures
        resp::parsed(state.received + chunk) == Ok::<Option<resp::ReplyView>, Seq<char>>(
            Some(reply),
        ) ==> stats::after_chunk(state, chunk) == stats::after_reply(state.stage, reply),
        resp::parsed(state.received + chunk) == Err::<Option<resp::ReplyView>, Seq<char>>(e)
            ==> stats::after_chunk(state, chunk) == stats::FetchStepView::Fail(
            stats::FetchErrorView::Protocol(e),
        ),
        resp::parsed(state.received + chunk) == Ok::<Option<resp::ReplyView>, Seq<char>>(None)
            ==> stats::after_chunk(state, chunk) == stats::FetchStepView::Receive(
            stats::FetchStateView { stage: state.stage, received: state.received + chunk },
        ),
{
}

/// A reply without a text, such as an error line, leaves all counters at 0 and
/// lists nothing.
pub proof fn law_replies_without_text_say_nothing(e: Seq<char>)
    ensures
        ({
            let t = resp::reply_text(resp::ReplyView::Error(e));
            &&& stats::aggregate_of(t) == (AggregateStats {
                cache_bytes: 0,
                evictions: 0,
                n_keys: 0,
                budget: 0,
            })
            &&& stats::shards_of(t).len() == 0
            &&& stats::vindexes_of(t).len() == 0
        }),
{
    reveal_strlit("");
    let t = ""@;
    assert(t =~= seq![]);
    assert(text::words(t) =~= seq![]);
    assert(text::lines(t) =~= seq![]);
    assert(stats::pairs_of(text::words(t)) =~= seq![]);
}

/// The bytes that a connection delivers are those of its chunks, one after the
/// other, and nothing is left out.
pub proof fn law_chunks_are_delivered_whole(a: Seq<Vec<u8>>, chunk: Vec<u8>, b: Seq<Vec<u8>>)
    ensures
        stats::all_bytes(a + b) == stats::all_bytes(a) + stats::all_bytes(b),
        stats::all_bytes(seq![chunk]) == chunk@,
    decreases b.len(),
{
    let one = seq![chunk];
    assert(one.drop_last() =~= seq![]);
    assert(stats::all_bytes(one.drop_last()) =~= seq![]);
    assert(one.last() == chunk);
    assert(stats::all_bytes(one) =~= chunk@);
    if b.len() == 0 {
        assert(a + b =~= a);
        assert(stats::all_bytes(a) + stats::all_bytes(b) =~= stats::all_bytes(a));
    } else {
        law_chunks_are_delivered_whole(a, chunk, b.drop_last());
        assert((a + b).drop_last() =~= a + b.drop_last());
        assert((a + b).last() == b.last());
        assert(stats::all_bytes(a + b) =~= stats::all_bytes(a) + stats::all_bytes(b));
    }
}

/// One reply is read from what a connection delivers before it closes: the
/// reply that stands at its start, or what is wrong there, or that it closed
/// before there was either.
pub proof fn law_one_reply_is_read(s: Seq<u8>, reply: resp::ReplyView, e: Seq<char>)
    ensures
        resp::parsed(s) == Ok::<Option<resp::ReplyView>, Seq<char>>(Some(reply))
            ==> stats::reply_in(s) == Ok::<resp::ReplyView, stats::FetchErrorView>(reply),
        resp::parsed(s) == Ok::<Option<resp::ReplyView>, Seq<char>>(None) ==> stats::reply_in(s)
            == Err::<resp::ReplyView, stats::FetchErrorView>(stats::FetchErrorView::Closed),
        resp::parsed(s) == Err::<Option<resp::ReplyView>, Seq<char>>(e) ==> stats::reply_in(s)
            == Err::<resp::ReplyView, stats::FetchErrorView>(stats::FetchErrorView::Protocol(e)),
{
}

} // verus!
