//! What holds of the printed reports: they can be read back.

use crate::inspect::{self, InspectReport, ShardReport, VindexEntry};
use crate::number;
use crate::reply_laws;
use crate::size;
use crate::size_laws;
use crate::stats::{self, AggregateStats, ShardStats};
use crate::stats_laws;
use crate::text;
use crate::text_laws;
use vstd::prelude::*;
use vstd::string::*;

verus! {

/// Whether neither a line end nor a carriage return stands in `s`.
pub open spec fn is_unbroken(s: Seq<char>) -> bool {
    text_laws::lacks(s, '\n') && text_laws::lacks(s, '\r')
}

/// Lines, each with a line end after it.
pub open spec fn ended(lines: Seq<Seq<char>>) -> Seq<char>
    decreases lines.len(),
{
    if lines.len() == 0 {
        seq![]
    } else {
        ended(lines.drop_last()) + lines.last() + seq!['\n']
    }
}

proof fn lemma_lines_of_ended(lines: Seq<Seq<char>>, rest: Seq<char>)
    requires
        forall|i: int| 0 <= i < lines.len() ==> is_unbroken(#[trigger] lines[i]),
    ensures
        text::lines(ended(lines) + rest) == lines + text::lines(rest),
    decreases lines.len(),
{
    if lines.len() == 0 {
        assert(ended(lines) + rest =~= rest);
        assert(lines + text::lines(rest) =~= text::lines(rest));
    } else {
        let before = lines.drop_last();
        let line = lines.last();
        assert(is_unbroken(lines[lines.len() - 1]));
        assert forall|i: int| 0 <= i < before.len() implies is_unbroken(#[trigger] before[i]) by {
            assert(before[i] == lines[i]);
        }
        let more = line + seq!['\n'] + rest;
        lemma_lines_of_ended(before, more);
        assert(ended(lines) + rest =~= ended(before) + more);
        text_laws::law_line_ends_part_lines(line, rest);
        assert(lines + text::lines(rest) =~= before + (seq![line] + text::lines(rest)));
    }
}

proof fn lemma_ended_add(a: Seq<Seq<char>>, b: Seq<Seq<char>>)
    ensures
        ended(a + b) == ended(a) + ended(b),
    decreases b.len(),
{
    if b.len() == 0 {
        assert(a + b =~= a);
        assert(ended(a) + ended(b) =~= ended(a));
    } else {
        lemma_ended_add(a, b.drop_last());
        assert((a + b).drop_last() =~= a + b.drop_last());
        assert((a + b).last() == b.last());
        assert(ended(a + b) =~= ended(a) + ended(b));
    }
}

proof fn lemma_ended_one(line: Seq<char>)
    ensures
        ended(seq![line]) == line + seq!['\n'],
{
    assert(seq![line].drop_last() =~= seq![]);
    assert(ended(seq![line].drop_last()) =~= seq![]);
    assert(ended(seq![line]) =~= line + seq!['\n']);
}

proof fn lemma_unbroken_add(a: Seq<char>, b: Seq<char>)
    requires
        is_unbroken(a),
        is_unbroken(b),
    ensures
        is_unbroken(a + b),
{
    let s = a + b;
    assert forall|i: int| 0 <= i < s.len() implies #[trigger] s[i] != '\n' && s[i] != '\r' by {
        if i < a.len() {
            assert(s[i] == a[i]);
        } else {
            assert(s[i] == b[i - a.len()]);
        }
    }
}

proof fn lemma_unbroken(s: Seq<char>)
    requires
        text_laws::has_no_space(s),
    ensures
        is_unbroken(s),
{
    assert forall|i: int| 0 <= i < s.len() implies #[trigger] s[i] != '\n' && s[i] != '\r' by {
        assert(!text::is_space(s[i]));
    }
}

proof fn lemma_no_space_add(a: Seq<char>, b: Seq<char>)
    requires
        text_laws::has_no_space(a),
        text_laws::has_no_space(b),
    ensures
        text_laws::has_no_space(a + b),
{
    let s = a + b;
    assert forall|i: int| 0 <= i < s.len() implies !text::is_space(#[trigger] s[i]) by {
        if i < a.len() {
            assert(s[i] == a[i]);
        } else {
            assert(s[i] == b[i - a.len()]);
        }
    }
}

proof fn lemma_decimal_has_no_space(n: nat)
    ensures
        text_laws::has_no_space(number::decimal(n)),
        number::decimal(n).len() > 0,
{
    number::lemma_decimal_is_read_back(n);
    let s = number::decimal(n);
    assert forall|i: int| 0 <= i < s.len() implies !text::is_space(#[trigger] s[i]) by {
        assert(number::is_digit(s[i]));
    }
}

/// `k` spaces.
pub open spec fn spaces(k: nat) -> Seq<char> {
    Seq::new(k, |i: int| ' ')
}

proof fn lemma_spaces_before(k: nat, rest: Seq<char>)
    ensures
        text::words(spaces(k) + rest) == text::words(rest),
        is_unbroken(spaces(k)),
    decreases k,
{
    if k == 0 {
        assert(spaces(k) + rest =~= rest);
    } else {
        let s = spaces(k) + rest;
        lemma_spaces_before((k - 1) as nat, rest);
        assert(s.drop_first() =~= spaces((k - 1) as nat) + rest);
        assert(s[0] == ' ');
    }
}

/// A word, spaces and then more.
proof fn lemma_word_and_more(w: Seq<char>, k: nat, rest: Seq<char>)
    requires
        w.len() > 0,
        text_laws::has_no_space(w),
        k > 0,
        is_unbroken(rest),
    ensures
        text::words(w + spaces(k) + rest) == seq![w] + text::words(rest),
        is_unbroken(w + spaces(k) + rest),
{
    let more = spaces((k - 1) as nat) + rest;
    lemma_spaces_before((k - 1) as nat, rest);
    lemma_spaces_before(k, rest);
    text_laws::law_a_word_is_one_word(w);
    text_laws::law_white_space_parts_words(w, ' ', more);
    assert(w + seq![' '] + more =~= w + spaces(k) + rest);
    lemma_unbroken(w);
    lemma_unbroken_add(w, spaces(k));
    lemma_unbroken_add(w + spaces(k), rest);
}

proof fn lemma_last_word(w: Seq<char>)
    requires
        w.len() > 0,
        text_laws::has_no_space(w),
    ensures
        text::words(w) == seq![w],
        is_unbroken(w),
{
    text_laws::law_a_word_is_one_word(w);
    lemma_unbroken(w);
}

/// The words of the line on one shard: its number, and its three counters as
/// fields.
pub open spec fn shard_words(s: ShardStats) -> Seq<Seq<char>> {
    seq![
        "shard-"@ + number::decimal(s.shard_id as nat) + seq![':'],
        stats_laws::counter_field("cache_bytes"@, s.cache_bytes as nat),
        stats_laws::counter_field("evictions"@, s.evictions as nat),
        stats_laws::counter_field("n_keys"@, s.n_keys as nat),
    ]
}

proof fn lemma_keys_have_no_space()
    ensures
        text_laws::has_no_space("cache_bytes"@),
        text_laws::has_no_space("evictions"@),
        text_laws::has_no_space("n_keys"@),
        text_laws::has_no_space("budget"@),
        text_laws::has_no_space("version"@),
        text_laws::has_no_space("mode"@),
        text_laws::has_no_space("shard-"@),
        text_laws::lacks("cache_bytes"@, '='),
        text_laws::lacks("evictions"@, '='),
        text_laws::lacks("n_keys"@, '='),
        text_laws::lacks("budget"@, '='),
        text_laws::lacks("shard-"@, '='),
        "cache_bytes"@.len() > 0,
        "evictions"@.len() > 0,
        "n_keys"@.len() > 0,
        "budget"@.len() > 0,
        "version"@.len() > 0,
        "mode"@.len() > 0,
        "shard-"@.len() > 0,
{
    reveal_strlit("cache_bytes");
    reveal_strlit("evictions");
    reveal_strlit("n_keys");
    reveal_strlit("budget");
    reveal_strlit("version");
    reveal_strlit("mode");
    reveal_strlit("shard-");
    assert("cache_bytes"@ =~= seq!['c', 'a', 'c', 'h', 'e', '_', 'b', 'y', 't', 'e', 's']);
    assert("evictions"@ =~= seq!['e', 'v', 'i', 'c', 't', 'i', 'o', 'n', 's']);
    assert("n_keys"@ =~= seq!['n', '_', 'k', 'e', 'y', 's']);
    assert("budget"@ =~= seq!['b', 'u', 'd', 'g', 'e', 't']);
    assert("version"@ =~= seq!['v', 'e', 'r', 's', 'i', 'o', 'n']);
    assert("mode"@ =~= seq!['m', 'o', 'd', 'e']);
    assert("shard-"@ =~= seq!['s', 'h', 'a', 'r', 'd', '-']);
}

proof fn lemma_field_has_no_space(key: Seq<char>, value: Seq<char>)
    requires
        text_laws::has_no_space(key),
        text_laws::has_no_space(value),
    ensures
        text_laws::has_no_space(stats_laws::field(key, value)),
        stats_laws::field(key, value).len() > 0,
{
    lemma_no_space_add(key, seq!['=']);
    lemma_no_space_add(key + seq!['='], value);
}

proof fn lemma_counter_has_no_space(key: Seq<char>, n: nat)
    requires
        text_laws::has_no_space(key),
    ensures
        text_laws::has_no_space(stats_laws::counter_field(key, n)),
        stats_laws::counter_field(key, n).len() > 0,
{
    lemma_decimal_has_no_space(n);
    lemma_field_has_no_space(key, number::decimal(n));
}

/// The line on one shard, without its line end.
#[verifier::rlimit(40)]
proof fn lemma_shard_line(s: ShardStats) -> (line: Seq<char>)
    ensures
        stats::shard_line(s) == line + seq!['\n'],
        is_unbroken(line),
        text::words(line) == shard_words(s),
{
    lemma_keys_have_no_space();
    reveal_strlit("  shard-");
    reveal_strlit("shard-");
    reveal_strlit(": cache_bytes=");
    reveal_strlit("cache_bytes");
    reveal_strlit(" evictions=");
    reveal_strlit("evictions");
    reveal_strlit(" n_keys=");
    reveal_strlit("n_keys");
    reveal_strlit("\n");
    let id = number::decimal(s.shard_id as nat);
    let w0 = "shard-"@ + id + seq![':'];
    let w1 = stats_laws::counter_field("cache_bytes"@, s.cache_bytes as nat);
    let w2 = stats_laws::counter_field("evictions"@, s.evictions as nat);
    let w3 = stats_laws::counter_field("n_keys"@, s.n_keys as nat);
    lemma_decimal_has_no_space(s.shard_id as nat);
    lemma_no_space_add("shard-"@, id);
    lemma_no_space_add("shard-"@ + id, seq![':']);
    lemma_counter_has_no_space("cache_bytes"@, s.cache_bytes as nat);
    lemma_counter_has_no_space("evictions"@, s.evictions as nat);
    lemma_counter_has_no_space("n_keys"@, s.n_keys as nat);
    let t2 = w2 + spaces(1) + w3;
    let t1 = w1 + spaces(1) + t2;
    let t0 = w0 + spaces(1) + t1;
    let line = spaces(2) + t0;
    lemma_last_word(w3);
    lemma_word_and_more(w2, 1, w3);
    lemma_word_and_more(w1, 1, t2);
    lemma_word_and_more(w0, 1, t1);
    lemma_spaces_before(2, t0);
    lemma_unbroken_add(spaces(2), t0);
    assert("  shard-"@ =~= spaces(2) + "shard-"@);
    assert(": cache_bytes="@ =~= seq![':'] + spaces(1) + ("cache_bytes"@ + seq!['=']));
    assert(" evictions="@ =~= spaces(1) + ("evictions"@ + seq!['=']));
    assert(" n_keys="@ =~= spaces(1) + ("n_keys"@ + seq!['=']));
    assert("\n"@ =~= seq!['\n']);
    assert(stats::shard_line(s) =~= line + seq!['\n']);
    assert(text::words(line) =~= shard_words(s));
    line
}

proof fn lemma_pairs_of_shard_words(s: ShardStats)
    ensures
        stats::pairs_of(shard_words(s)) == seq![
            ("cache_bytes"@, s.cache_bytes as nat),
            ("evictions"@, s.evictions as nat),
            ("n_keys"@, s.n_keys as nat),
        ],
{
    lemma_keys_have_no_space();
    let w = shard_words(s);
    let id = number::decimal(s.shard_id as nat);
    number::lemma_decimal_is_read_back(s.shard_id as nat);
    assert forall|i: int| 0 <= i < w[0].len() implies #[trigger] w[0][i] != '=' by {
        if i < "shard-"@.len() {
            assert(w[0][i] == "shard-"@[i]);
        } else if i < "shard-"@.len() + id.len() {
            assert(number::is_digit(id[i - "shard-"@.len()]));
        }
    }
    reply_laws::law_pairs_are_keys_and_numbers(w[0], seq![], 0);
    lemma_counter_pair("cache_bytes"@, s.cache_bytes as nat);
    lemma_counter_pair("evictions"@, s.evictions as nat);
    lemma_counter_pair("n_keys"@, s.n_keys as nat);
    reply_laws::law_words_are_read_one_by_one(seq![], w[0], seq![]);
    reply_laws::law_words_are_read_one_by_one(seq![w[0]], w[1], seq![w[1]]);
    reply_laws::law_words_are_read_one_by_one(seq![w[0]] + seq![w[1]], w[2], seq![w[2]]);
    reply_laws::law_words_are_read_one_by_one(
        seq![w[0]] + seq![w[1]] + seq![w[2]],
        w[3],
        seq![w[3]],
    );
    assert(w =~= seq![w[0]] + seq![w[1]] + seq![w[2]] + seq![w[3]]);
    assert(stats::pairs_of(w) =~= seq![
        ("cache_bytes"@, s.cache_bytes as nat),
        ("evictions"@, s.evictions as nat),
        ("n_keys"@, s.n_keys as nat),
    ]);
}

proof fn lemma_counter_pair(key: Seq<char>, n: nat)
    requires
        text_laws::lacks(key, '='),
        n <= u64::MAX,
    ensures
        stats::pair_of(stats_laws::counter_field(key, n)) == Some((key, n)),
{
    assert(number::zeros(0) + number::decimal(n) =~= number::decimal(n));
    assert(number::writes(number::decimal(n), n));
    reply_laws::law_pairs_are_keys_and_numbers(key, number::decimal(n), n);
}

proof fn lemma_decimals_differ(a: nat, b: nat)
    requires
        number::decimal(a) == number::decimal(b),
    ensures
        a == b,
{
    number::lemma_decimal_is_read_back(a);
    number::lemma_decimal_is_read_back(b);
}

/// The printed line on a shard determines the shard: its words after the colon
/// are fields that give back the counters, the word before it gives back the
/// number, and two different shards never print the same line.
pub proof fn law_printed_shard_is_read_back(s: ShardStats, t: ShardStats)
    ensures
        text::words(stats::shard_line(s)) == shard_words(s),
        stats::pairs_of(text::words(stats::shard_line(s))) == seq![
            ("cache_bytes"@, s.cache_bytes as nat),
            ("evictions"@, s.evictions as nat),
            ("n_keys"@, s.n_keys as nat),
        ],
        stats::shard_line(s) == stats::shard_line(t) ==> s == t,
{
    let line = lemma_shard_line(s);
    let other = lemma_shard_line(t);
    text_laws::law_white_space_parts_words(line, '\n', seq![]);
    text_laws::law_white_space_parts_words(other, '\n', seq![]);
    text_laws::law_a_word_is_one_word(seq![]);
    assert(line + seq!['\n'] + Seq::<char>::empty() =~= line + seq!['\n']);
    assert(other + seq!['\n'] + Seq::<char>::empty() =~= other + seq!['\n']);
    assert(shard_words(s) + Seq::<Seq<char>>::empty() =~= shard_words(s));
    assert(shard_words(t) + Seq::<Seq<char>>::empty() =~= shard_words(t));
    lemma_pairs_of_shard_words(s);
    lemma_pairs_of_shard_words(t);
    if stats::shard_line(s) == stats::shard_line(t) {
        let p = stats::pairs_of(shard_words(s));
        let q = stats::pairs_of(shard_words(t));
        assert(p[0] == q[0] && p[1] == q[1] && p[2] == q[2]);
        let a = number::decimal(s.shard_id as nat);
        let b = number::decimal(t.shard_id as nat);
        let x = "shard-"@ + a + seq![':'];
        let y = "shard-"@ + b + seq![':'];
        assert(shard_words(s)[0] == shard_words(t)[0]);
        assert(x == y);
        let n = "shard-"@.len() as int;
        assert(a =~= x.subrange(n, x.len() - 1));
        assert(b =~= y.subrange(n, y.len() - 1));
        lemma_decimals_differ(s.shard_id as nat, t.shard_id as nat);
    }
}

/// The words of each line of a text.
pub open spec fn words_by_line(s: Seq<char>) -> Seq<Seq<Seq<char>>> {
    text::lines(s).map_values(|line: Seq<char>| text::words(line))
}

/// Whether `lines` are unbroken and have these words.
spec fn have_words(lines: Seq<Seq<char>>, words: Seq<Seq<Seq<char>>>) -> bool {
    &&& lines.len() == words.len()
    &&& forall|i: int|
        0 <= i < lines.len() ==> is_unbroken(#[trigger] lines[i]) && text::words(lines[i])
            == words[i]
}

proof fn lemma_words_by_line(lines: Seq<Seq<char>>, words: Seq<Seq<Seq<char>>>)
    requires
        have_words(lines, words),
    ensures
        words_by_line(ended(lines)) == words,
{
    lemma_lines_of_ended(lines, seq![]);
    text_laws::law_line_ends_part_lines(seq![], seq![]);
    assert(ended(lines) + Seq::<char>::empty() =~= ended(lines));
    assert(lines + Seq::<Seq<char>>::empty() =~= lines);
    assert(words_by_line(ended(lines)) =~= words);
}

proof fn lemma_have_words_add(
    a: Seq<Seq<char>>,
    x: Seq<Seq<Seq<char>>>,
    b: Seq<Seq<char>>,
    y: Seq<Seq<Seq<char>>>,
)
    requires
        have_words(a, x),
        have_words(b, y),
    ensures
        have_words(a + b, x + y),
        ended(a + b) == ended(a) + ended(b),
{
    lemma_ended_add(a, b);
    let c = a + b;
    let z = x + y;
    assert forall|i: int| 0 <= i < c.len() implies is_unbroken(#[trigger] c[i]) && text::words(c[i])
        == z[i] by {
        if i < a.len() {
            assert(c[i] == a[i] && z[i] == x[i]);
        } else {
            assert(c[i] == b[i - a.len()] && z[i] == y[i - a.len()]);
        }
    }
}

proof fn lemma_one_line(line: Seq<char>, words: Seq<Seq<char>>)
    requires
        is_unbroken(line),
        text::words(line) == words,
    ensures
        have_words(seq![line], seq![words]),
        ended(seq![line]) == line + seq!['\n'],
{
    lemma_ended_one(line);
}

proof fn lemma_shard_lines(shards: Seq<ShardStats>) -> (lines: Seq<Seq<char>>)
    ensures
        stats::shard_lines(shards) == ended(lines),
        have_words(lines, shards.map_values(|s: ShardStats| shard_words(s))),
    decreases shards.len(),
{
    let words = shards.map_values(|s: ShardStats| shard_words(s));
    if shards.len() == 0 {
        let none = Seq::<Seq<char>>::empty();
        assert(stats::shard_lines(shards) =~= ended(none));
        none
    } else {
        let before = shards.drop_last();
        let lines = lemma_shard_lines(before);
        let line = lemma_shard_line(shards.last());
        lemma_one_line(line, shard_words(shards.last()));
        let x = before.map_values(|s: ShardStats| shard_words(s));
        lemma_have_words_add(lines, x, seq![line], seq![shard_words(shards.last())]);
        assert(x + seq![shard_words(shards.last())] =~= words);
        assert(stats::shard_lines(shards) =~= ended(lines) + (line + seq!['\n']));
        lines + seq![line]
    }
}

/// The words of the line on one VINDEX.
pub open spec fn vindex_words(v: (Seq<char>, u32)) -> Seq<Seq<char>> {
    seq![v.0, "(dim="@ + number::decimal(v.1 as nat) + seq![')']]
}

proof fn lemma_vindex_line(v: (Seq<char>, u32)) -> (line: Seq<char>)
    requires
        stats_laws::is_word(v.0),
    ensures
        stats::vindex_line(v) == line + seq!['\n'],
        is_unbroken(line),
        text::words(line) == vindex_words(v),
{
    reveal_strlit("  ");
    reveal_strlit(" (dim=");
    reveal_strlit("(dim=");
    reveal_strlit(")\n");
    let d = number::decimal(v.1 as nat);
    let w = "(dim="@ + d + seq![')'];
    assert("(dim="@ =~= seq!['(', 'd', 'i', 'm', '=']);
    lemma_decimal_has_no_space(v.1 as nat);
    lemma_no_space_add("(dim="@, d);
    lemma_no_space_add("(dim="@ + d, seq![')']);
    let t = v.0 + spaces(1) + w;
    let line = spaces(2) + t;
    lemma_last_word(w);
    lemma_word_and_more(v.0, 1, w);
    lemma_spaces_before(2, t);
    lemma_unbroken_add(spaces(2), t);
    assert("  "@ =~= spaces(2));
    assert(" (dim="@ =~= spaces(1) + "(dim="@);
    assert(")\n"@ =~= seq![')'] + seq!['\n']);
    assert(stats::vindex_line(v) =~= line + seq!['\n']);
    assert(text::words(line) =~= vindex_words(v));
    line
}

proof fn lemma_vindex_lines(vindexes: Seq<(Seq<char>, u32)>) -> (lines: Seq<Seq<char>>)
    requires
        forall|i: int| 0 <= i < vindexes.len() ==> stats_laws::is_word((#[trigger] vindexes[i]).0),
    ensures
        stats::vindex_lines(vindexes) == ended(lines),
        have_words(lines, vindexes.map_values(|v: (Seq<char>, u32)| vindex_words(v))),
    decreases vindexes.len(),
{
    let words = vindexes.map_values(|v: (Seq<char>, u32)| vindex_words(v));
    if vindexes.len() == 0 {
        let none = Seq::<Seq<char>>::empty();
        assert(stats::vindex_lines(vindexes) =~= ended(none));
        none
    } else {
        let before = vindexes.drop_last();
        assert forall|i: int| 0 <= i < before.len() implies stats_laws::is_word(
            (#[trigger] before[i]).0,
        ) by {
            assert(before[i] == vindexes[i]);
        }
        let lines = lemma_vindex_lines(before);
        let last = vindexes.last();
        assert(stats_laws::is_word(vindexes[vindexes.len() - 1].0));
        let line = lemma_vindex_line(last);
        lemma_one_line(line, vindex_words(last));
        let x = before.map_values(|v: (Seq<char>, u32)| vindex_words(v));
        lemma_have_words_add(lines, x, seq![line], seq![vindex_words(last)]);
        assert(x + seq![vindex_words(last)] =~= words);
        assert(stats::vindex_lines(vindexes) =~= ended(lines) + (line + seq!['\n']));
        lines + seq![line]
    }
}

/// The words of the line on the server.
pub open spec fn server_words(info: stats::ServerInfoView) -> Seq<Seq<char>> {
    seq![
        "server"@,
        stats_laws::field("version"@, info.version),
        stats_laws::field("mode"@, info.mode),
    ]
}

/// The words of the line on the aggregate counters.
pub open spec fn aggregate_words(a: AggregateStats) -> Seq<Seq<char>> {
    seq![
        "aggregate"@,
        stats_laws::counter_field("cache_bytes"@, a.cache_bytes as nat),
        stats_laws::counter_field("evictions"@, a.evictions as nat),
        stats_laws::counter_field("n_keys"@, a.n_keys as nat),
        stats_laws::counter_field("budget"@, a.budget as nat),
    ]
}

#[verifier::rlimit(40)]
proof fn lemma_server_line(info: stats::ServerInfoView) -> (line: Seq<char>)
    requires
        stats_laws::is_value(info.version),
        stats_laws::is_value(info.mode),
    ensures
        line == "server     version="@ + info.version + " mode="@ + info.mode,
        is_unbroken(line),
        text::words(line) == server_words(info),
{
    lemma_keys_have_no_space();
    reveal_strlit("server     version=");
    reveal_strlit("server");
    reveal_strlit("version");
    reveal_strlit(" mode=");
    reveal_strlit("mode");
    assert("server"@ =~= seq!['s', 'e', 'r', 'v', 'e', 'r']);
    let w1 = stats_laws::field("version"@, info.version);
    let w2 = stats_laws::field("mode"@, info.mode);
    lemma_field_has_no_space("version"@, info.version);
    lemma_field_has_no_space("mode"@, info.mode);
    lemma_last_word(w2);
    lemma_word_and_more(w1, 1, w2);
    let t = w1 + spaces(1) + w2;
    lemma_word_and_more("server"@, 5, t);
    let line = "server"@ + spaces(5) + t;
    assert("server     version="@ =~= "server"@ + spaces(5) + ("version"@ + seq!['=']));
    assert(" mode="@ =~= spaces(1) + ("mode"@ + seq!['=']));
    assert(line =~= "server     version="@ + info.version + " mode="@ + info.mode);
    assert(text::words(line) =~= server_words(info));
    line
}

#[verifier::rlimit(40)]
proof fn lemma_aggregate_line(a: AggregateStats) -> (line: Seq<char>)
    ensures
        line == "aggregate  cache_bytes="@ + number::decimal(a.cache_bytes as nat) + " evictions="@
            + number::decimal(a.evictions as nat) + " n_keys="@ + number::decimal(a.n_keys as nat)
            + " budget="@ + number::decimal(a.budget as nat),
        is_unbroken(line),
        text::words(line) == aggregate_words(a),
{
    lemma_keys_have_no_space();
    reveal_strlit("aggregate  cache_bytes=");
    reveal_strlit("aggregate");
    reveal_strlit("cache_bytes");
    reveal_strlit(" evictions=");
    reveal_strlit("evictions");
    reveal_strlit(" n_keys=");
    reveal_strlit("n_keys");
    reveal_strlit(" budget=");
    reveal_strlit("budget");
    assert("aggregate"@ =~= seq!['a', 'g', 'g', 'r', 'e', 'g', 'a', 't', 'e']);
    let w1 = stats_laws::counter_field("cache_bytes"@, a.cache_bytes as nat);
    let w2 = stats_laws::counter_field("evictions"@, a.evictions as nat);
    let w3 = stats_laws::counter_field("n_keys"@, a.n_keys as nat);
    let w4 = stats_laws::counter_field("budget"@, a.budget as nat);
    lemma_counter_has_no_space("cache_bytes"@, a.cache_bytes as nat);
    lemma_counter_has_no_space("evictions"@, a.evictions as nat);
    lemma_counter_has_no_space("n_keys"@, a.n_keys as nat);
    lemma_counter_has_no_space("budget"@, a.budget as nat);
    let t3 = w3 + spaces(1) + w4;
    let t2 = w2 + spaces(1) + t3;
    let t1 = w1 + spaces(1) + t2;
    let line = "aggregate"@ + spaces(2) + t1;
    lemma_last_word(w4);
    lemma_word_and_more(w3, 1, w4);
    lemma_word_and_more(w2, 1, t3);
    lemma_word_and_more(w1, 1, t2);
    lemma_word_and_more("aggregate"@, 2, t1);
    assert("aggregate  cache_bytes="@ =~= "aggregate"@ + spaces(2) + ("cache_bytes"@ + seq!['=']));
    assert(" evictions="@ =~= spaces(1) + ("evictions"@ + seq!['=']));
    assert(" n_keys="@ =~= spaces(1) + ("n_keys"@ + seq!['=']));
    assert(" budget="@ =~= spaces(1) + ("budget"@ + seq!['=']));
    assert(line =~= "aggregate  cache_bytes="@ + number::decimal(a.cache_bytes as nat)
        + " evictions="@ + number::decimal(a.evictions as nat) + " n_keys="@ + number::decimal(
        a.n_keys as nat,
    ) + " budget="@ + number::decimal(a.budget as nat));
    assert(text::words(line) =~= aggregate_words(a));
    line
}

/// The words of the lines on shards: how many there are, and then each.
pub open spec fn shards_part(shards: Seq<ShardStats>) -> Seq<Seq<Seq<char>>> {
    if shards.len() == 0 {
        seq![]
    } else {
        seq![seq!["shards"@, number::decimal(shards.len())]] + shards.map_values(
            |s: ShardStats| shard_words(s),
        )
    }
}

/// The words of the lines on VINDEXes: how many there are, and then each.
pub open spec fn vindexes_part(vindexes: Seq<(Seq<char>, u32)>) -> Seq<Seq<Seq<char>>> {
    if vindexes.len() == 0 {
        seq![seq!["vindexes"@, "(none)"@]]
    } else {
        seq![seq!["vindexes"@, number::decimal(vindexes.len())]] + vindexes.map_values(
            |v: (Seq<char>, u32)| vindex_words(v),
        )
    }
}

proof fn lemma_shards_part(shards: Seq<ShardStats>) -> (lines: Seq<Seq<char>>)
    ensures
        ended(lines) == (if shards.len() == 0 {
            seq![]
        } else {
            "shards     "@ + number::decimal(shards.len()) + "\n"@ + stats::shard_lines(shards)
        }),
        have_words(lines, shards_part(shards)),
{
    if shards.len() == 0 {
        Seq::empty()
    } else {
        reveal_strlit("shards     ");
        reveal_strlit("shards");
        reveal_strlit("\n");
        assert("shards"@ =~= seq!['s', 'h', 'a', 'r', 'd', 's']);
        let count = number::decimal(shards.len());
        lemma_decimal_has_no_space(shards.len());
        lemma_last_word(count);
        lemma_word_and_more("shards"@, 5, count);
        let line = "shards"@ + spaces(5) + count;
        assert("shards     "@ =~= "shards"@ + spaces(5));
        assert(text::words(line) =~= seq!["shards"@, count]);
        let lines = lemma_shard_lines(shards);
        lemma_one_line(line, seq!["shards"@, count]);
        lemma_have_words_add(
            seq![line],
            seq![seq!["shards"@, count]],
            lines,
            shards.map_values(|s: ShardStats| shard_words(s)),
        );
        assert(ended(seq![line] + lines) =~= "shards     "@ + count + "\n"@ + stats::shard_lines(
            shards,
        ));
        seq![line] + lines
    }
}

proof fn lemma_vindexes_part(vindexes: Seq<(Seq<char>, u32)>) -> (lines: Seq<Seq<char>>)
    requires
        forall|i: int| 0 <= i < vindexes.len() ==> stats_laws::is_word((#[trigger] vindexes[i]).0),
    ensures
        ended(lines) == (if vindexes.len() == 0 {
            "vindexes   (none)\n"@
        } else {
            "vindexes   "@ + number::decimal(vindexes.len()) + "\n"@ + stats::vindex_lines(vindexes)
        }),
        have_words(lines, vindexes_part(vindexes)),
{
    reveal_strlit("vindexes   (none)\n");
    reveal_strlit("vindexes   ");
    reveal_strlit("vindexes");
    reveal_strlit("(none)");
    reveal_strlit("\n");
    assert("vindexes"@ =~= seq!['v', 'i', 'n', 'd', 'e', 'x', 'e', 's']);
    assert("(none)"@ =~= seq!['(', 'n', 'o', 'n', 'e', ')']);
    assert("vindexes   "@ =~= "vindexes"@ + spaces(3));
    if vindexes.len() == 0 {
        lemma_last_word("(none)"@);
        lemma_word_and_more("vindexes"@, 3, "(none)"@);
        let line = "vindexes"@ + spaces(3) + "(none)"@;
        assert(text::words(line) =~= seq!["vindexes"@, "(none)"@]);
        lemma_one_line(line, seq!["vindexes"@, "(none)"@]);
        assert("vindexes   (none)\n"@ =~= line + seq!['\n']);
        seq![line]
    } else {
        let count = number::decimal(vindexes.len());
        lemma_decimal_has_no_space(vindexes.len());
        lemma_last_word(count);
        lemma_word_and_more("vindexes"@, 3, count);
        let line = "vindexes"@ + spaces(3) + count;
        assert(text::words(line) =~= seq!["vindexes"@, count]);
        let lines = lemma_vindex_lines(vindexes);
        lemma_one_line(line, seq!["vindexes"@, count]);
        lemma_have_words_add(
            seq![line],
            seq![seq!["vindexes"@, count]],
            lines,
            vindexes.map_values(|v: (Seq<char>, u32)| vindex_words(v)),
        );
        assert(ended(seq![line] + lines) =~= "vindexes   "@ + count + "\n"@ + stats::vindex_lines(
            vindexes,
        ));
        seq![line] + lines
    }
}

/// What is appended bit by bit after a first line is a second line.
proof fn lemma_second_line(
    first: Seq<char>,
    end: Seq<char>,
    a: Seq<char>,
    b: Seq<char>,
    c: Seq<char>,
    d: Seq<char>,
    e: Seq<char>,
    f: Seq<char>,
    g: Seq<char>,
    h: Seq<char>,
)
    ensures
        first + end + a + b + c + d + e + f + g + h + end == (first + end) + ((a + b + c + d + e + f
            + g + h) + end),
{
    let start = first + end;
    assert(start + a + b =~= start + (a + b));
    assert(start + (a + b) + c =~= start + (a + b + c));
    assert(start + (a + b + c) + d =~= start + (a + b + c + d));
    assert(start + (a + b + c + d) + e =~= start + (a + b + c + d + e));
    assert(start + (a + b + c + d + e) + f =~= start + (a + b + c + d + e + f));
    assert(start + (a + b + c + d + e + f) + g =~= start + (a + b + c + d + e + f + g));
    assert(start + (a + b + c + d + e + f + g) + h =~= start + (a + b + c + d + e + f + g + h));
    assert(start + (a + b + c + d + e + f + g + h) + end =~= start + ((a + b + c + d + e + f + g
        + h) + end));
}

/// The printed counters of a server, line by line and word by word: the server
/// with its version and mode, the aggregate counters, the number of shards and
/// one line for each in order, and the number of VINDEXes and one line for
/// each in order.
#[verifier::rlimit(40)]
pub proof fn law_printed_stats_line_by_line(s: stats::ServerStatsView)
    requires
        stats_laws::is_value(s.info.version),
        stats_laws::is_value(s.info.mode),
        forall|i: int|
            0 <= i < s.vindexes.len() ==> stats_laws::is_word((#[trigger] s.vindexes[i]).0),
    ensures
        words_by_line(stats::stats_text(s)) == seq![
            server_words(s.info),
            aggregate_words(s.aggregate),
        ] + shards_part(s.shards) + vindexes_part(s.vindexes),
{
    reveal_strlit("\n");
    let l0 = lemma_server_line(s.info);
    let l1 = lemma_aggregate_line(s.aggregate);
    lemma_one_line(l0, server_words(s.info));
    lemma_one_line(l1, aggregate_words(s.aggregate));
    lemma_have_words_add(
        seq![l0],
        seq![server_words(s.info)],
        seq![l1],
        seq![aggregate_words(s.aggregate)],
    );
    let head = seq![l0] + seq![l1];
    let head_words = seq![server_words(s.info)] + seq![aggregate_words(s.aggregate)];
    let p = lemma_shards_part(s.shards);
    let q = lemma_vindexes_part(s.vindexes);
    lemma_have_words_add(head, head_words, p, shards_part(s.shards));
    lemma_have_words_add(
        head + p,
        head_words + shards_part(s.shards),
        q,
        vindexes_part(s.vindexes),
    );
    let a = s.aggregate;
    lemma_second_line(
        l0,
        "\n"@,
        "aggregate  cache_bytes="@,
        number::decimal(a.cache_bytes as nat),
        " evictions="@,
        number::decimal(a.evictions as nat),
        " n_keys="@,
        number::decimal(a.n_keys as nat),
        " budget="@,
        number::decimal(a.budget as nat),
    );
    assert("\n"@ =~= seq!['\n']);
    assert(ended(head) == (l0 + seq!['\n']) + (l1 + seq!['\n']));
    assert(stats::stats_text(s) == ended(head) + ended(p) + ended(q));
    lemma_words_by_line(
        head + p + q,
        head_words + shards_part(s.shards) + vindexes_part(s.vindexes),
    );
    assert(head_words =~= seq![server_words(s.info), aggregate_words(s.aggregate)]);
}

/// The printed aggregate counters and the printed server are read back from
/// their lines.
pub proof fn law_printed_aggregate_is_read_back(a: AggregateStats, info: stats::ServerInfoView)
    ensures
        stats::pairs_of(aggregate_words(a)) == seq![
            ("cache_bytes"@, a.cache_bytes as nat),
            ("evictions"@, a.evictions as nat),
            ("n_keys"@, a.n_keys as nat),
            ("budget"@, a.budget as nat),
        ],
        stats::fields_of(server_words(info)) == seq![
            ("version"@, info.version),
            ("mode"@, info.mode),
        ],
{
    lemma_keys_have_no_space();
    reveal_strlit("aggregate");
    reveal_strlit("server");
    reveal_strlit("version");
    reveal_strlit("mode");
    assert("aggregate"@ =~= seq!['a', 'g', 'g', 'r', 'e', 'g', 'a', 't', 'e']);
    assert("server"@ =~= seq!['s', 'e', 'r', 'v', 'e', 'r']);
    assert("version"@ =~= seq!['v', 'e', 'r', 's', 'i', 'o', 'n']);
    assert("mode"@ =~= seq!['m', 'o', 'd', 'e']);
    let w = aggregate_words(a);
    reply_laws::law_pairs_are_keys_and_numbers(w[0], seq![], 0);
    lemma_counter_pair("cache_bytes"@, a.cache_bytes as nat);
    lemma_counter_pair("evictions"@, a.evictions as nat);
    lemma_counter_pair("n_keys"@, a.n_keys as nat);
    lemma_counter_pair("budget"@, a.budget as nat);
    reply_laws::law_words_are_read_one_by_one(seq![], w[0], seq![]);
    let a1 = seq![w[0]];
    let a2 = a1 + seq![w[1]];
    let a3 = a2 + seq![w[2]];
    let a4 = a3 + seq![w[3]];
    reply_laws::law_words_are_read_one_by_one(a1, w[1], seq![w[1]]);
    reply_laws::law_words_are_read_one_by_one(a2, w[2], seq![w[2]]);
    reply_laws::law_words_are_read_one_by_one(a3, w[3], seq![w[3]]);
    reply_laws::law_words_are_read_one_by_one(a4, w[4], seq![w[4]]);
    assert(w =~= a4 + seq![w[4]]);
    assert(stats::pairs_of(w) =~= seq![
        ("cache_bytes"@, a.cache_bytes as nat),
        ("evictions"@, a.evictions as nat),
        ("n_keys"@, a.n_keys as nat),
        ("budget"@, a.budget as nat),
    ]);
    let v = server_words(info);
    text_laws::law_separators_part_pieces(v[0], '=', seq![]);
    text_laws::law_separators_part_pieces("version"@, '=', info.version);
    text_laws::law_separators_part_pieces("mode"@, '=', info.mode);
    let b1 = seq![v[0]];
    let b2 = b1 + seq![v[1]];
    reply_laws::law_words_are_read_one_by_one(seq![], v[0], seq![]);
    reply_laws::law_words_are_read_one_by_one(b1, v[1], seq![v[1]]);
    reply_laws::law_words_are_read_one_by_one(b2, v[2], seq![v[2]]);
    assert(v =~= b2 + seq![v[2]]);
    assert(stats::fields_of(v) =~= seq![("version"@, info.version), ("mode"@, info.mode)]);
}

/// The words of the line on one VINDEX of a shard: its name, its dimension, its
/// number of vectors, or `?` where that is not known, and its two sizes.
pub open spec fn entry_words(v: VindexEntry) -> Seq<Seq<char>> {
    let graph = text::words(size::human(v.graph_bytes as nat));
    let vectors = text::words(size::human(v.vectors_bytes as nat));
    seq![
        stats_laws::field("vindex"@, v.name@),
        stats_laws::counter_field("dim"@, v.dim as nat),
        stats_laws::field(
            "n"@,
            match v.n_vectors {
                Some(n) => number::decimal(n as nat),
                None => seq!['?'],
            },
        ),
        stats_laws::field("graph"@, graph[0]),
        graph[1],
        stats_laws::field("vectors"@, vectors[0]),
        vectors[1],
    ]
}

/// A key, a size and no more.
proof fn lemma_size_field(key: Seq<char>, n: nat)
    requires
        text_laws::has_no_space(key),
    ensures
        ({
            let w = text::words(size::human(n));
            &&& text::words(stats_laws::field(key, size::human(n))) == seq![
                stats_laws::field(key, w[0]),
                w[1],
            ]
            &&& is_unbroken(stats_laws::field(key, size::human(n)))
        }),
{
    size_laws::law_sizes_are_two_words(n);
    let w = text::words(size::human(n));
    lemma_field_has_no_space(key, w[0]);
    lemma_last_word(w[1]);
    lemma_word_and_more(stats_laws::field(key, w[0]), 1, w[1]);
    assert(stats_laws::field(key, w[0]) + spaces(1) + w[1] =~= stats_laws::field(
        key,
        size::human(n),
    ));
    assert(seq![stats_laws::field(key, w[0])] + seq![w[1]] =~= seq![
        stats_laws::field(key, w[0]),
        w[1],
    ]);
}

/// A text of several words, a space and then more.
proof fn lemma_words_and_more(a: Seq<char>, b: Seq<char>)
    requires
        is_unbroken(a),
        is_unbroken(b),
    ensures
        text::words(a + spaces(1) + b) == text::words(a) + text::words(b),
        is_unbroken(a + spaces(1) + b),
{
    text_laws::law_white_space_parts_words(a, ' ', b);
    assert(a + seq![' '] + b =~= a + spaces(1) + b);
    lemma_spaces_before(1, b);
    lemma_unbroken_add(a, spaces(1));
    lemma_unbroken_add(a + spaces(1), b);
}

/// A field is appended as a key and then a value.
proof fn lemma_append_field(s: Seq<char>, k: nat, key: Seq<char>, value: Seq<char>)
    ensures
        s + (spaces(k) + (key + seq!['='])) + value == s + (spaces(k) + stats_laws::field(
            key,
            value,
        )),
{
    assert(s + (spaces(k) + (key + seq!['='])) + value =~= s + (spaces(k) + stats_laws::field(
        key,
        value,
    )));
}

/// Five texts with a space between each two of them.
proof fn lemma_five(a: Seq<char>, b: Seq<char>, c: Seq<char>, d: Seq<char>, e: Seq<char>)
    ensures
        (spaces(2) + a) + (spaces(1) + b) + (spaces(1) + c) + (spaces(1) + d) + (spaces(1) + e)
            == spaces(2) + (a + spaces(1) + (b + spaces(1) + (c + spaces(1) + (d + spaces(1)
            + e)))),
{
    let start = spaces(2) + a;
    let de = d + spaces(1) + e;
    let cde = c + spaces(1) + de;
    let bcde = b + spaces(1) + cde;
    assert((spaces(1) + d) + (spaces(1) + e) =~= spaces(1) + de);
    assert((spaces(1) + c) + (spaces(1) + de) =~= spaces(1) + cde);
    assert((spaces(1) + b) + (spaces(1) + cde) =~= spaces(1) + bcde);
    let x = start + (spaces(1) + b);
    let y = x + (spaces(1) + c);
    assert(y + (spaces(1) + d) + (spaces(1) + e) =~= y + ((spaces(1) + d) + (spaces(1) + e)));
    assert(x + (spaces(1) + c) + (spaces(1) + de) =~= x + ((spaces(1) + c) + (spaces(1) + de)));
    assert(start + (spaces(1) + b) + (spaces(1) + cde) =~= start + ((spaces(1) + b) + (spaces(1)
        + cde)));
    assert(start + (spaces(1) + bcde) =~= spaces(2) + (a + spaces(1) + bcde));
}

/// The text of the line on one VINDEX, as fields.
#[verifier::rlimit(40)]
proof fn lemma_entry_text(v: VindexEntry, n: Seq<char>)
    requires
        n == (match v.n_vectors {
            Some(n) => number::decimal(n as nat),
            None => seq!['?'],
        }),
    ensures
        inspect::vindex_line(v) == (spaces(2) + stats_laws::field("vindex"@, v.name@)) + (spaces(1)
            + stats_laws::counter_field("dim"@, v.dim as nat)) + (spaces(1) + stats_laws::field(
            "n"@,
            n,
        )) + (spaces(1) + stats_laws::field("graph"@, size::human(v.graph_bytes as nat))) + (spaces(
            1,
        ) + stats_laws::field("vectors"@, size::human(v.vectors_bytes as nat))) + seq!['\n'],
{
    reveal_strlit("  vindex=");
    reveal_strlit("vindex");
    reveal_strlit(" dim=");
    reveal_strlit("dim");
    reveal_strlit(" n=");
    reveal_strlit("n");
    reveal_strlit("?");
    reveal_strlit(" graph=");
    reveal_strlit("graph");
    reveal_strlit(" vectors=");
    reveal_strlit("vectors");
    reveal_strlit("\n");
    assert("?"@ =~= seq!['?']);
    assert("  vindex="@ =~= spaces(2) + ("vindex"@ + seq!['=']));
    assert(" dim="@ =~= spaces(1) + ("dim"@ + seq!['=']));
    assert(" n="@ =~= spaces(1) + ("n"@ + seq!['=']));
    assert(" graph="@ =~= spaces(1) + ("graph"@ + seq!['=']));
    assert(" vectors="@ =~= spaces(1) + ("vectors"@ + seq!['=']));
    assert("\n"@ =~= seq!['\n']);
    let graph = size::human(v.graph_bytes as nat);
    let vectors = size::human(v.vectors_bytes as nat);
    let none = Seq::<char>::empty();
    lemma_append_field(none, 2, "vindex"@, v.name@);
    let s0 = spaces(2) + stats_laws::field("vindex"@, v.name@);
    assert(none + s0 =~= s0);
    assert(none + "  vindex="@ =~= "  vindex="@);
    lemma_append_field(s0, 1, "dim"@, number::decimal(v.dim as nat));
    let s1 = s0 + (spaces(1) + stats_laws::counter_field("dim"@, v.dim as nat));
    lemma_append_field(s1, 1, "n"@, n);
    let s2 = s1 + (spaces(1) + stats_laws::field("n"@, n));
    lemma_append_field(s2, 1, "graph"@, graph);
    let s3 = s2 + (spaces(1) + stats_laws::field("graph"@, graph));
    lemma_append_field(s3, 1, "vectors"@, vectors);
}

#[verifier::rlimit(40)]
proof fn lemma_entry_line(v: VindexEntry) -> (line: Seq<char>)
    requires
        stats_laws::is_word(v.name@),
    ensures
        inspect::vindex_line(v) == line + seq!['\n'],
        is_unbroken(line),
        text::words(line) == entry_words(v),
{
    reveal_strlit("vindex");
    reveal_strlit("dim");
    reveal_strlit("n");
    reveal_strlit("graph");
    reveal_strlit("vectors");
    assert("vindex"@ =~= seq!['v', 'i', 'n', 'd', 'e', 'x']);
    assert("dim"@ =~= seq!['d', 'i', 'm']);
    assert("n"@ =~= seq!['n']);
    assert("graph"@ =~= seq!['g', 'r', 'a', 'p', 'h']);
    assert("vectors"@ =~= seq!['v', 'e', 'c', 't', 'o', 'r', 's']);
    let n = match v.n_vectors {
        Some(n) => number::decimal(n as nat),
        None => seq!['?'],
    };
    if let Some(k) = v.n_vectors {
        lemma_decimal_has_no_space(k as nat);
    }
    let graph = size::human(v.graph_bytes as nat);
    let vectors = size::human(v.vectors_bytes as nat);
    let w0 = stats_laws::field("vindex"@, v.name@);
    let w1 = stats_laws::counter_field("dim"@, v.dim as nat);
    let w2 = stats_laws::field("n"@, n);
    let w3 = stats_laws::field("graph"@, graph);
    let w4 = stats_laws::field("vectors"@, vectors);
    lemma_field_has_no_space("vindex"@, v.name@);
    lemma_counter_has_no_space("dim"@, v.dim as nat);
    lemma_field_has_no_space("n"@, n);
    lemma_size_field("graph"@, v.graph_bytes as nat);
    lemma_size_field("vectors"@, v.vectors_bytes as nat);
    let t3 = w3 + spaces(1) + w4;
    let t2 = w2 + spaces(1) + t3;
    let t1 = w1 + spaces(1) + t2;
    let t0 = w0 + spaces(1) + t1;
    let line = spaces(2) + t0;
    lemma_words_and_more(w3, w4);
    lemma_word_and_more(w2, 1, t3);
    lemma_word_and_more(w1, 1, t2);
    lemma_word_and_more(w0, 1, t1);
    lemma_spaces_before(2, t0);
    lemma_unbroken_add(spaces(2), t0);
    lemma_entry_text(v, n);
    lemma_five(w0, w1, w2, w3, w4);
    assert(inspect::vindex_line(v) == line + seq!['\n']);
    assert(text::words(line) =~= entry_words(v));
    line
}

proof fn lemma_entry_lines(vindexes: Seq<VindexEntry>) -> (lines: Seq<Seq<char>>)
    requires
        forall|i: int|
            0 <= i < vindexes.len() ==> stats_laws::is_word((#[trigger] vindexes[i]).name@),
    ensures
        inspect::vindex_lines(vindexes) == ended(lines),
        have_words(lines, vindexes.map_values(|v: VindexEntry| entry_words(v))),
    decreases vindexes.len(),
{
    let words = vindexes.map_values(|v: VindexEntry| entry_words(v));
    if vindexes.len() == 0 {
        let none = Seq::<Seq<char>>::empty();
        assert(inspect::vindex_lines(vindexes) =~= ended(none));
        none
    } else {
        let before = vindexes.drop_last();
        assert forall|i: int| 0 <= i < before.len() implies stats_laws::is_word(
            (#[trigger] before[i]).name@,
        ) by {
            assert(before[i] == vindexes[i]);
        }
        let lines = lemma_entry_lines(before);
        let last = vindexes.last();
        assert(stats_laws::is_word(vindexes[vindexes.len() - 1].name@));
        let line = lemma_entry_line(last);
        lemma_one_line(line, entry_words(last));
        let x = before.map_values(|v: VindexEntry| entry_words(v));
        lemma_have_words_add(lines, x, seq![line], seq![entry_words(last)]);
        assert(x + seq![entry_words(last)] =~= words);
        assert(inspect::vindex_lines(vindexes) =~= ended(lines) + (line + seq!['\n']));
        lines + seq![line]
    }
}

/// The words of the lines on one shard: its number, its KV size, and its
/// VINDEXes.
pub open spec fn shard_block(s: ShardReport) -> Seq<Seq<Seq<char>>> {
    seq![
        seq!["[shard-"@ + number::decimal(s.shard_id as nat) + seq![']']],
        seq!["kv_bytes:"@] + text::words(size::human(s.kv_bytes as nat)),
    ] + if s.vindexes@.len() == 0 {
        seq![seq!["(no"@, "vindexes)"@]]
    } else {
        s.vindexes@.map_values(|v: VindexEntry| entry_words(v))
    }
}

/// The words of the lines on shards, one after the other.
pub open spec fn shard_blocks(shards: Seq<ShardReport>) -> Seq<Seq<Seq<char>>>
    decreases shards.len(),
{
    if shards.len() == 0 {
        seq![]
    } else {
        shard_blocks(shards.drop_last()) + shard_block(shards.last())
    }
}

/// Whether the names of all VINDEXes of `shards` are words.
pub open spec fn names_are_words(shards: Seq<ShardReport>) -> bool {
    forall|i: int, j: int|
        0 <= i < shards.len() && 0 <= j < shards[i].vindexes@.len() ==> stats_laws::is_word(
            (#[trigger] shards[i].vindexes@[j]).name@,
        )
}

proof fn lemma_kv_line(n: nat) -> (line: Seq<char>)
    ensures
        line == "kv_bytes: "@ + size::human(n),
        is_unbroken(line),
        text::words(line) == seq!["kv_bytes:"@] + text::words(size::human(n)),
        is_unbroken(size::human(n)),
{
    reveal_strlit("kv_bytes: ");
    reveal_strlit("kv_bytes:");
    assert("kv_bytes:"@ =~= seq!['k', 'v', '_', 'b', 'y', 't', 'e', 's', ':']);
    size_laws::law_sizes_are_two_words(n);
    let w = text::words(size::human(n));
    lemma_last_word(w[1]);
    lemma_word_and_more(w[0], 1, w[1]);
    assert(w[0] + spaces(1) + w[1] =~= size::human(n));
    lemma_word_and_more("kv_bytes:"@, 1, size::human(n));
    let line = "kv_bytes:"@ + spaces(1) + size::human(n);
    assert("kv_bytes: "@ =~= "kv_bytes:"@ + spaces(1));
    assert(line =~= "kv_bytes: "@ + size::human(n));
    line
}

proof fn lemma_no_vindexes_line()
    ensures
        "  (no vindexes)\n"@ == ended(seq![spaces(2) + ("(no"@ + spaces(1) + "vindexes)"@)]),
        have_words(
            seq![spaces(2) + ("(no"@ + spaces(1) + "vindexes)"@)],
            seq![seq!["(no"@, "vindexes)"@]],
        ),
{
    reveal_strlit("  (no vindexes)\n");
    reveal_strlit("(no");
    reveal_strlit("vindexes)");
    assert("(no"@ =~= seq!['(', 'n', 'o']);
    assert("vindexes)"@ =~= seq!['v', 'i', 'n', 'd', 'e', 'x', 'e', 's', ')']);
    let t = "(no"@ + spaces(1) + "vindexes)"@;
    let line = spaces(2) + t;
    lemma_last_word("vindexes)"@);
    lemma_word_and_more("(no"@, 1, "vindexes)"@);
    lemma_spaces_before(2, t);
    lemma_unbroken_add(spaces(2), t);
    assert(text::words(line) =~= seq!["(no"@, "vindexes)"@]);
    lemma_one_line(line, seq!["(no"@, "vindexes)"@]);
    assert("  (no vindexes)\n"@ =~= line + seq!['\n']);
}

#[verifier::rlimit(40)]
proof fn lemma_shard_block(s: ShardReport) -> (lines: Seq<Seq<char>>)
    requires
        forall|j: int|
            0 <= j < s.vindexes@.len() ==> stats_laws::is_word((#[trigger] s.vindexes@[j]).name@),
    ensures
        inspect::shard_lines(s) == ended(lines),
        have_words(lines, shard_block(s)),
{
    reveal_strlit("[shard-");
    reveal_strlit("]\n");
    reveal_strlit("  kv_bytes: ");
    reveal_strlit("kv_bytes: ");
    reveal_strlit("\n");
    assert("[shard-"@ =~= seq!['[', 's', 'h', 'a', 'r', 'd', '-']);
    let id = number::decimal(s.shard_id as nat);
    let l0 = "[shard-"@ + id + seq![']'];
    lemma_decimal_has_no_space(s.shard_id as nat);
    lemma_no_space_add("[shard-"@, id);
    lemma_no_space_add("[shard-"@ + id, seq![']']);
    lemma_last_word(l0);
    lemma_one_line(l0, seq![l0]);
    let kv = lemma_kv_line(s.kv_bytes as nat);
    let l1 = spaces(2) + kv;
    lemma_spaces_before(2, kv);
    lemma_unbroken_add(spaces(2), kv);
    let kv_words = seq!["kv_bytes:"@] + text::words(size::human(s.kv_bytes as nat));
    lemma_one_line(l1, kv_words);
    lemma_have_words_add(seq![l0], seq![seq![l0]], seq![l1], seq![kv_words]);
    let head = seq![l0] + seq![l1];
    let head_words = seq![seq![l0]] + seq![kv_words];
    let tail_words = if s.vindexes@.len() == 0 {
        seq![seq!["(no"@, "vindexes)"@]]
    } else {
        s.vindexes@.map_values(|v: VindexEntry| entry_words(v))
    };
    lemma_no_vindexes_line();
    let tail = if s.vindexes@.len() == 0 {
        seq![spaces(2) + ("(no"@ + spaces(1) + "vindexes)"@)]
    } else {
        lemma_entry_lines(s.vindexes@)
    };
    lemma_have_words_add(head, head_words, tail, tail_words);
    assert(head_words + tail_words =~= shard_block(s));
    assert("]\n"@ =~= seq![']'] + seq!['\n']);
    assert("  kv_bytes: "@ =~= spaces(2) + "kv_bytes: "@);
    assert("\n"@ =~= seq!['\n']);
    assert("[shard-"@ + id + "]\n"@ =~= l0 + seq!['\n']);
    let first = l0 + seq!['\n'];
    let size = size::human(s.kv_bytes as nat);
    assert(first + "  kv_bytes: "@ + size + "\n"@ =~= first + (l1 + seq!['\n']));
    assert(inspect::shard_lines(s) == ended(head) + ended(tail));
    head + tail
}

proof fn lemma_shard_blocks(shards: Seq<ShardReport>) -> (lines: Seq<Seq<char>>)
    requires
        names_are_words(shards),
    ensures
        inspect::all_shard_lines(shards) == ended(lines),
        have_words(lines, shard_blocks(shards)),
    decreases shards.len(),
{
    if shards.len() == 0 {
        let none = Seq::<Seq<char>>::empty();
        assert(inspect::all_shard_lines(shards) =~= ended(none));
        none
    } else {
        let before = shards.drop_last();
        let last = shards.last();
        assert forall|i: int, j: int|
            0 <= i < before.len() && 0 <= j < before[i].vindexes@.len() implies stats_laws::is_word(
            (#[trigger] before[i].vindexes@[j]).name@,
        ) by {
            assert(before[i] == shards[i]);
            assert(stats_laws::is_word(shards[i].vindexes@[j].name@));
        }
        let a = lemma_shard_blocks(before);
        assert forall|j: int| 0 <= j < last.vindexes@.len() implies stats_laws::is_word(
            (#[trigger] last.vindexes@[j]).name@,
        ) by {
            assert(stats_laws::is_word(shards[shards.len() - 1].vindexes@[j].name@));
        }
        let b = lemma_shard_block(last);
        lemma_have_words_add(a, shard_blocks(before), b, shard_block(last));
        a + b
    }
}

/// The words of the lines of a report after the first.
pub open spec fn report_words(r: InspectReport) -> Seq<Seq<Seq<char>>> {
    seq![seq!["shards:"@, number::decimal(r.shards@.len())]] + if r.shards@.len() == 0 {
        seq![seq!["(no"@, "shard-*"@, "subdirectories"@, "found)"@]]
    } else {
        seq![
            seq!["kv_bytes:"@] + text::words(size::human(inspect::total_kv(r.shards@))),
            seq!["vindexes:"@, number::decimal(inspect::total_vindexes(r.shards@))],
            seq![],
        ] + shard_blocks(r.shards@)
    }
}

proof fn lemma_no_shards_line() -> (line: Seq<char>)
    ensures
        "(no shard-* subdirectories found)\n"@ == line + seq!['\n'],
        is_unbroken(line),
        text::words(line) == seq!["(no"@, "shard-*"@, "subdirectories"@, "found)"@],
{
    reveal_strlit("(no shard-* subdirectories found)\n");
    reveal_strlit("(no");
    reveal_strlit("shard-*");
    reveal_strlit("subdirectories");
    reveal_strlit("found)");
    assert("(no"@ =~= seq!['(', 'n', 'o']);
    assert("shard-*"@ =~= seq!['s', 'h', 'a', 'r', 'd', '-', '*']);
    assert("subdirectories"@ =~= seq![
        's', 'u', 'b', 'd', 'i', 'r', 'e', 'c', 't', 'o', 'r', 'i', 'e', 's',
    ]);
    assert("found)"@ =~= seq!['f', 'o', 'u', 'n', 'd', ')']);
    let t1 = "subdirectories"@ + spaces(1) + "found)"@;
    let t0 = "shard-*"@ + spaces(1) + t1;
    let line = "(no"@ + spaces(1) + t0;
    lemma_last_word("found)"@);
    lemma_word_and_more("subdirectories"@, 1, "found)"@);
    lemma_word_and_more("shard-*"@, 1, t1);
    lemma_word_and_more("(no"@, 1, t0);
    assert("(no shard-* subdirectories found)\n"@ =~= line + seq!['\n']);
    assert(text::words(line) =~= seq!["(no"@, "shard-*"@, "subdirectories"@, "found)"@]);
    line
}

/// A word that ends in a colon, spaces and a number.
proof fn lemma_count_line(word: Seq<char>, k: nat, n: nat)
    requires
        word.len() > 0,
        text_laws::has_no_space(word),
        k > 0,
    ensures
        is_unbroken(word + spaces(k) + number::decimal(n)),
        text::words(word + spaces(k) + number::decimal(n)) == seq![word, number::decimal(n)],
{
    lemma_decimal_has_no_space(n);
    lemma_last_word(number::decimal(n));
    lemma_word_and_more(word, k, number::decimal(n));
    assert(seq![word] + seq![number::decimal(n)] =~= seq![word, number::decimal(n)]);
}

#[verifier::rlimit(40)]
proof fn lemma_report_head(r: InspectReport) -> (lines: Seq<Seq<char>>)
    requires
        r.shards@.len() > 0,
    ensures
        ended(lines) == "kv_bytes: "@ + size::human(inspect::total_kv(r.shards@)) + "\n"@
            + "vindexes: "@ + number::decimal(inspect::total_vindexes(r.shards@)) + "\n"@ + "\n"@,
        have_words(
            lines,
            seq![
                seq!["kv_bytes:"@] + text::words(size::human(inspect::total_kv(r.shards@))),
                seq!["vindexes:"@, number::decimal(inspect::total_vindexes(r.shards@))],
                seq![],
            ],
        ),
{
    reveal_strlit("vindexes: ");
    reveal_strlit("vindexes:");
    reveal_strlit("\n");
    assert("vindexes:"@ =~= seq!['v', 'i', 'n', 'd', 'e', 'x', 'e', 's', ':']);
    let kv = inspect::total_kv(r.shards@);
    let count = inspect::total_vindexes(r.shards@);
    let kv_words = seq!["kv_bytes:"@] + text::words(size::human(kv));
    let count_words = seq!["vindexes:"@, number::decimal(count)];
    let l0 = lemma_kv_line(kv);
    let l1 = "vindexes:"@ + spaces(1) + number::decimal(count);
    let l2 = Seq::<char>::empty();
    lemma_count_line("vindexes:"@, 1, count);
    text_laws::law_a_word_is_one_word(l2);
    lemma_one_line(l0, kv_words);
    lemma_one_line(l1, count_words);
    lemma_one_line(l2, seq![]);
    lemma_have_words_add(seq![l0], seq![kv_words], seq![l1], seq![count_words]);
    let none = Seq::<Seq<char>>::empty();
    lemma_have_words_add(
        seq![l0] + seq![l1],
        seq![kv_words] + seq![count_words],
        seq![l2],
        seq![none],
    );
    let lines = seq![l0] + seq![l1] + seq![l2];
    assert(seq![kv_words] + seq![count_words] + seq![none] =~= seq![kv_words, count_words, none]);
    assert("vindexes: "@ =~= "vindexes:"@ + spaces(1));
    assert("\n"@ =~= seq!['\n']);
    let a = l0 + seq!['\n'];
    assert(a + "vindexes: "@ + number::decimal(count) + seq!['\n'] =~= a + (l1 + seq!['\n']));
    assert(l2 + seq!['\n'] =~= seq!['\n']);
    lines
}

/// A printed report, line by line and word by word: the path of the data
/// directory, the number of shards, the total KV size and number of VINDEXes,
/// and then for each shard in order its number, its KV size and one line for
/// each of its VINDEXes in order.
#[verifier::rlimit(40)]
pub proof fn law_printed_report_line_by_line(r: InspectReport)
    requires
        is_unbroken(r.data_dir@),
        names_are_words(r.shards@),
    ensures
        text::lines(inspect::report_text(r))[0] == "data_dir: "@ + r.data_dir@,
        words_by_line(inspect::report_text(r)).skip(1) == report_words(r),
{
    reveal_strlit("data_dir: ");
    reveal_strlit("shards:   ");
    reveal_strlit("shards:");
    reveal_strlit("\n");
    assert("shards:"@ =~= seq!['s', 'h', 'a', 'r', 'd', 's', ':']);
    assert("data_dir: "@ =~= seq!['d', 'a', 't', 'a', '_', 'd', 'i', 'r', ':', ' ']);
    let count = number::decimal(r.shards@.len());
    let l0 = "data_dir: "@ + r.data_dir@;
    lemma_unbroken_add("data_dir: "@, r.data_dir@);
    lemma_one_line(l0, text::words(l0));
    let l1 = "shards:"@ + spaces(3) + count;
    lemma_count_line("shards:"@, 3, r.shards@.len());
    lemma_one_line(l1, seq!["shards:"@, count]);
    lemma_have_words_add(
        seq![l0],
        seq![text::words(l0)],
        seq![l1],
        seq![seq!["shards:"@, count]],
    );
    let head = seq![l0] + seq![l1];
    let head_words = seq![text::words(l0)] + seq![seq!["shards:"@, count]];
    assert("shards:   "@ =~= "shards:"@ + spaces(3));
    assert("\n"@ =~= seq!['\n']);
    let a = l0 + seq!['\n'];
    assert(a + "shards:   "@ + count + "\n"@ =~= a + (l1 + seq!['\n']));
    let (tail, tail_words) = if r.shards@.len() == 0 {
        let line = lemma_no_shards_line();
        let words = seq!["(no"@, "shard-*"@, "subdirectories"@, "found)"@];
        lemma_one_line(line, words);
        (seq![line], seq![words])
    } else {
        let x = lemma_report_head(r);
        let y = lemma_shard_blocks(r.shards@);
        let words = seq![
            seq!["kv_bytes:"@] + text::words(size::human(inspect::total_kv(r.shards@))),
            seq!["vindexes:"@, number::decimal(inspect::total_vindexes(r.shards@))],
            seq![],
        ];
        lemma_have_words_add(x, words, y, shard_blocks(r.shards@));
        (x + y, words + shard_blocks(r.shards@))
    };
    lemma_have_words_add(head, head_words, tail, tail_words);
    assert(inspect::report_text(r) == ended(head) + ended(tail));
    let all = head + tail;
    let all_words = head_words + tail_words;
    lemma_words_by_line(all, all_words);
    lemma_lines_of_ended(all, seq![]);
    text_laws::law_line_ends_part_lines(seq![], seq![]);
    assert(ended(all) + Seq::<char>::empty() =~= ended(all));
    assert(all + Seq::<Seq<char>>::empty() =~= all);
    assert(all[0] == l0);
    assert(all_words.skip(1) =~= report_words(r));
}

/// Whether `s` begins with `start`.
pub open spec fn begins_with(s: Seq<char>, start: Seq<char>) -> bool {
    start.len() <= s.len() && s.take(start.len() as int) == start
}

/// The printed counters begin with the server's version and mode as they are,
/// whatever characters stand in them.
#[verifier::rlimit(40)]
pub proof fn law_printed_server_is_as_it_is(s: stats::ServerStatsView)
    ensures
        begins_with(
            stats::stats_text(s),
            "server     version="@ + s.info.version + " mode="@ + s.info.mode + "\n"@,
        ),
{
    let start = "server     version="@ + s.info.version + " mode="@ + s.info.mode + "\n"@;
    let a = s.aggregate;
    reveal_strlit("\n");
    let line = lemma_aggregate_line(a);
    lemma_second_line(
        "server     version="@ + s.info.version + " mode="@ + s.info.mode,
        "\n"@,
        "aggregate  cache_bytes="@,
        number::decimal(a.cache_bytes as nat),
        " evictions="@,
        number::decimal(a.evictions as nat),
        " n_keys="@,
        number::decimal(a.n_keys as nat),
        " budget="@,
        number::decimal(a.budget as nat),
    );
    assert(stats::stats_text(s).take(start.len() as int) =~= start);
}

/// VINDEXes are printed after everything else, which does not depend on them:
/// each on a line of its own, in order, with its name as it is and its
/// dimension.
#[verifier::rlimit(40)]
pub proof fn law_printed_vindexes_are_as_they_are(
    s: stats::ServerStatsView,
    a: Seq<(Seq<char>, u32)>,
    v: (Seq<char>, u32),
)
    ensures
        stats::vindex_line(v) == "  "@ + v.0 + " (dim="@ + number::decimal(v.1 as nat) + ")\n"@,
        stats::vindex_lines(a.push(v)) == stats::vindex_lines(a) + stats::vindex_line(v),
        stats::vindex_lines(seq![]).len() == 0,
        ({
            let without = stats::ServerStatsView { vindexes: seq![], ..s };
            let with_one_more = stats::ServerStatsView { vindexes: a.push(v), ..s };
            let n = stats::stats_text(without).len() - "vindexes   (none)\n"@.len();
            &&& n >= 0
            &&& stats::stats_text(without).skip(n) == "vindexes   (none)\n"@
            &&& stats::stats_text(with_one_more) == stats::stats_text(without).take(n)
                + "vindexes   "@ + number::decimal(a.len() + 1) + "\n"@ + stats::vindex_lines(
                a.push(v),
            )
        }),
{
    assert(a.push(v).drop_last() =~= a);
    let none = "vindexes   (none)\n"@;
    let without = stats::ServerStatsView { vindexes: seq![], ..s };
    let with_one_more = stats::ServerStatsView { vindexes: a.push(v), ..s };
    let text = stats::stats_text(without);
    let n = text.len() - none.len();
    let other = "vindexes   "@ + number::decimal(a.len() + 1) + "\n"@ + stats::vindex_lines(
        a.push(v),
    );
    assert(text.skip(n) =~= none);
    assert(stats::stats_text(with_one_more) =~= text.take(n) + other);
    assert(text.take(n) + other =~= text.take(n) + "vindexes   "@ + number::decimal(a.len() + 1)
        + "\n"@ + stats::vindex_lines(a.push(v)));
}

/// The lines on shards are printed in order, one for each.
pub proof fn law_printed_shards_are_in_order(a: Seq<ShardStats>, s: ShardStats)
    ensures
        stats::shard_lines(a.push(s)) == stats::shard_lines(a) + stats::shard_line(s),
        stats::shard_lines(seq![]).len() == 0,
{
    assert(a.push(s).drop_last() =~= a);
}

/// A printed report begins with the path of the data directory as it is, and
/// the line on a VINDEX with its name as it is, whatever characters stand in
/// them; what follows the name does not depend on it.
#[verifier::rlimit(40)]
pub proof fn law_printed_names_are_as_they_are(r: InspectReport, v: VindexEntry, w: VindexEntry)
    requires
        v.dim == w.dim,
        v.n_vectors == w.n_vectors,
        v.graph_bytes == w.graph_bytes,
        v.vectors_bytes == w.vectors_bytes,
    ensures
        begins_with(inspect::report_text(r), "data_dir: "@ + r.data_dir@ + "\n"@),
        begins_with(inspect::vindex_line(v), "  vindex="@ + v.name@ + " dim="@),
        inspect::vindex_line(v).skip(("  vindex="@ + v.name@).len() as int) == inspect::vindex_line(
            w,
        ).skip(("  vindex="@ + w.name@).len() as int),
{
    let start = "data_dir: "@ + r.data_dir@ + "\n"@;
    assert(inspect::report_text(r).take(start.len() as int) =~= start);
    let n = match v.n_vectors {
        Some(n) => number::decimal(n as nat),
        None => "?"@,
    };
    let graph = size::human(v.graph_bytes as nat);
    let vectors = size::human(v.vectors_bytes as nat);
    let d = number::decimal(v.dim as nat);
    let p = "  vindex="@ + v.name@;
    let q = "  vindex="@ + w.name@;
    let rest = " dim="@ + d + " n="@ + n + " graph="@ + graph + " vectors="@ + vectors + "\n"@;
    lemma_after(p, " dim="@, d, " n="@, n, " graph="@, graph, " vectors="@, vectors, "\n"@);
    lemma_after(q, " dim="@, d, " n="@, n, " graph="@, graph, " vectors="@, vectors, "\n"@);
    assert(inspect::vindex_line(v) == p + rest);
    assert(inspect::vindex_line(w) == q + rest);
    assert((p + rest).skip(p.len() as int) =~= rest);
    assert((q + rest).skip(q.len() as int) =~= rest);
    let begin = p + " dim="@;
    assert(rest.take(" dim="@.len() as int) =~= " dim="@);
    assert((p + rest).take(begin.len() as int) =~= p + rest.take(" dim="@.len() as int));
}

/// What is appended bit by bit is appended.
proof fn lemma_after(
    p: Seq<char>,
    a: Seq<char>,
    b: Seq<char>,
    c: Seq<char>,
    d: Seq<char>,
    e: Seq<char>,
    f: Seq<char>,
    g: Seq<char>,
    h: Seq<char>,
    i: Seq<char>,
)
    ensures
        p + a + b + c + d + e + f + g + h + i == p + (a + b + c + d + e + f + g + h + i),
{
    assert(p + a + b =~= p + (a + b));
    assert(p + (a + b) + c =~= p + (a + b + c));
    assert(p + (a + b + c) + d =~= p + (a + b + c + d));
    assert(p + (a + b + c + d) + e =~= p + (a + b + c + d + e));
    assert(p + (a + b + c + d + e) + f =~= p + (a + b + c + d + e + f));
    assert(p + (a + b + c + d + e + f) + g =~= p + (a + b + c + d + e + f + g));
    assert(p + (a + b + c + d + e + f + g) + h =~= p + (a + b + c + d + e + f + g + h));
    assert(p + (a + b + c + d + e + f + g + h) + i =~= p + (a + b + c + d + e + f + g + h + i));
}

/// The VINDEXes of a shard, and the shards of a report, are printed in order,
/// one after the other, each as it is printed alone.
pub proof fn law_printed_entries_are_in_order(
    vindexes: Seq<VindexEntry>,
    v: VindexEntry,
    shards: Seq<ShardReport>,
    s: ShardReport,
)
    ensures
        inspect::vindex_lines(vindexes.push(v)) == inspect::vindex_lines(vindexes)
            + inspect::vindex_line(v),
        inspect::vindex_lines(seq![]).len() == 0,
        inspect::all_shard_lines(shards.push(s)) == inspect::all_shard_lines(shards)
            + inspect::shard_lines(s),
        inspect::all_shard_lines(seq![]).len() == 0,
        s.vindexes@.len() > 0 ==> inspect::shard_lines(s) == "[shard-"@ + number::decimal(
            s.shard_id as nat,
        ) + "]\n"@ + "  kv_bytes: "@ + size::human(s.kv_bytes as nat) + "\n"@
            + inspect::vindex_lines(s.vindexes@),
{
    assert(vindexes.push(v).drop_last() =~= vindexes);
    assert(shards.push(s).drop_last() =~= shards);
}

} // verus!
