//! Live counters of a running server.
//!
//! A `stats` call runs `HELLO 3`, `SKEG.STATS`, `SKEG.SHARDS` and
//! `SKEG.VINDEX.LIST` on one connection and reads the replies into the structs
//! below. It only reads. [`fetch`] decides what to do with the connection;
//! whoever holds the connection does it.

use crate::error::ErrorKind;
use crate::number::{self, read_uint, write_uint};
use crate::resp::{
    self, encode_command, frame_as_string, parse_reply, scalar_as_string, Reply, Scalar,
};
use crate::text::{self, same_text, split_half, split_lines, split_words};
use vstd::prelude::*;
use vstd::string::*;

verus! {

/// Server-side info gathered from `HELLO 3`.
#[derive(Debug, Clone)]
pub struct ServerInfo {
    pub version: String,
    pub mode: String,
}

/// Aggregate cache + KV counters from `SKEG.STATS`.
///
/// The server returns a flat `cache_bytes=X evictions=Y n_keys=Z budget=B`
/// status string. Unknown fields are ignored so that a newer server adding
/// more counters does not matter.
#[derive(Debug, Clone, Copy, PartialEq, Eq, Structural)]
pub struct AggregateStats {
    pub cache_bytes: u64,
    pub evictions: u64,
    pub n_keys: u64,
    pub budget: u64,
}

/// One `SKEG.SHARDS` line. Unknown fields are ignored.
#[derive(Debug, Clone, Copy, PartialEq, Eq, Structural)]
pub struct ShardStats {
    pub shard_id: u32,
    pub cache_bytes: u64,
    pub evictions: u64,
    pub n_keys: u64,
}

/// Full report assembled from a single `stats` call.
#[derive(Debug, Clone)]
pub struct ServerStats {
    pub info: ServerInfo,
    pub aggregate: AggregateStats,
    pub shards: Vec<ShardStats>,
    /// `(name, dim)` pairs from `SKEG.VINDEX.LIST`.
    pub vindexes: Vec<(String, u32)>,
}

impl Default for AggregateStats {
    fn default() -> (r: Self)
        ensures
            r == (AggregateStats { cache_bytes: 0, evictions: 0, n_keys: 0, budget: 0 }),
    {
        AggregateStats { cache_bytes: 0, evictions: 0, n_keys: 0, budget: 0 }
    }
}

impl Default for ShardStats {
    fn default() -> (r: Self)
        ensures
            r == (ShardStats { shard_id: 0, cache_bytes: 0, evictions: 0, n_keys: 0 }),
    {
        ShardStats { shard_id: 0, cache_bytes: 0, evictions: 0, n_keys: 0 }
    }
}

/// The key and the value of a `key=value` word with a number for its value.
pub open spec fn pair_of(word: Seq<char>) -> Option<(Seq<char>, nat)> {
    match text::halves(word, '=') {
        None => None,
        Some(p) => match number::uint_of(p.1, u64::MAX as nat) {
            None => None,
            Some(n) => Some((p.0, n)),
        },
    }
}

/// The keys and values of those of `words` that are `key=value` with a number
/// for the value. Other words are passed over.
pub open spec fn pairs_of(words: Seq<Seq<char>>) -> Seq<(Seq<char>, nat)>
    decreases words.len(),
{
    if words.len() == 0 {
        seq![]
    } else {
        let before = pairs_of(words.drop_last());
        match pair_of(words.last()) {
            Some(p) => before.push(p),
            None => before,
        }
    }
}

/// The last value up to `max` that `pairs` has for `key`; 0 if there is none.
pub open spec fn latest(pairs: Seq<(Seq<char>, nat)>, key: Seq<char>, max: nat) -> nat
    decreases pairs.len(),
{
    if pairs.len() == 0 {
        0
    } else if pairs.last().0 == key && pairs.last().1 <= max {
        pairs.last().1
    } else {
        latest(pairs.drop_last(), key, max)
    }
}

/// The counter `key` among `pairs`.
pub open spec fn counter(pairs: Seq<(Seq<char>, nat)>, key: Seq<char>) -> u64 {
    latest(pairs, key, u64::MAX as nat) as u64
}

/// The aggregate counters that `key=value` pairs give.
pub open spec fn aggregate_from(pairs: Seq<(Seq<char>, nat)>) -> AggregateStats {
    AggregateStats {
        cache_bytes: counter(pairs, "cache_bytes"@),
        evictions: counter(pairs, "evictions"@),
        n_keys: counter(pairs, "n_keys"@),
        budget: counter(pairs, "budget"@),
    }
}

/// The aggregate counters in the text of a `SKEG.STATS` reply.
pub open spec fn aggregate_of(s: Seq<char>) -> AggregateStats {
    aggregate_from(pairs_of(text::words(s)))
}

/// The counters of a shard that `key=value` pairs give.
pub open spec fn shard_from(pairs: Seq<(Seq<char>, nat)>) -> ShardStats {
    ShardStats {
        shard_id: latest(pairs, "shard"@, u32::MAX as nat) as u32,
        cache_bytes: counter(pairs, "cache_bytes"@),
        evictions: counter(pairs, "evictions"@),
        n_keys: counter(pairs, "n_keys"@),
    }
}

/// The counters of shards, one for each line that is not empty.
pub open spec fn shards_from(lines: Seq<Seq<char>>) -> Seq<ShardStats>
    decreases lines.len(),
{
    if lines.len() == 0 {
        seq![]
    } else {
        let before = shards_from(lines.drop_last());
        if lines.last().len() == 0 {
            before
        } else {
            before.push(shard_from(pairs_of(text::words(lines.last()))))
        }
    }
}

/// The counters of shards in the text of a `SKEG.SHARDS` reply.
pub open spec fn shards_of(s: Seq<char>) -> Seq<ShardStats> {
    shards_from(text::lines(s))
}

/// The keys and values of those of `words` that are `key=value`.
pub open spec fn fields_of(words: Seq<Seq<char>>) -> Seq<(Seq<char>, Seq<char>)>
    decreases words.len(),
{
    if words.len() == 0 {
        seq![]
    } else {
        let before = fields_of(words.drop_last());
        match text::halves(words.last(), '=') {
            Some(p) => before.push(p),
            None => before,
        }
    }
}

/// The last text that `fields` has for `key`; empty if there is none.
pub open spec fn latest_text(fields: Seq<(Seq<char>, Seq<char>)>, key: Seq<char>) -> Seq<char>
    decreases fields.len(),
{
    if fields.len() == 0 {
        seq![]
    } else if fields.last().0 == key {
        fields.last().1
    } else {
        latest_text(fields.drop_last(), key)
    }
}

/// The last number up to `max` that `fields` has for `key`; 0 if there is none.
pub open spec fn latest_number(
    fields: Seq<(Seq<char>, Seq<char>)>,
    key: Seq<char>,
    max: nat,
) -> nat
    decreases fields.len(),
{
    if fields.len() == 0 {
        0
    } else if fields.last().0 == key && number::uint_of(fields.last().1, max) is Some {
        number::uint_of(fields.last().1, max)->0
    } else {
        latest_number(fields.drop_last(), key, max)
    }
}

/// The name and the dimension of the VINDEX that a line is about.
pub open spec fn vindex_from(fields: Seq<(Seq<char>, Seq<char>)>) -> (Seq<char>, u32) {
    (latest_text(fields, "name"@), latest_number(fields, "dim"@, u32::MAX as nat) as u32)
}

/// The names and dimensions of VINDEXes, one for each line that names one.
pub open spec fn vindexes_from(lines: Seq<Seq<char>>) -> Seq<(Seq<char>, u32)>
    decreases lines.len(),
{
    if lines.len() == 0 {
        seq![]
    } else {
        let before = vindexes_from(lines.drop_last());
        let v = vindex_from(fields_of(text::words(lines.last())));
        if v.0.len() == 0 {
            before
        } else {
            before.push(v)
        }
    }
}

/// The VINDEXes in the text of a `SKEG.VINDEX.LIST` reply.
pub open spec fn vindexes_of(s: Seq<char>) -> Seq<(Seq<char>, u32)> {
    vindexes_from(text::lines(s))
}

/// The pairs that a vector of keys and values holds.
pub open spec fn pairs_view(v: Seq<(&str, u64)>) -> Seq<(Seq<char>, nat)> {
    v.map_values(|p: (&str, u64)| (p.0@, p.1 as nat))
}

/// The VINDEXes that a vector of names and dimensions holds.
pub open spec fn vindexes_view(v: Seq<(String, u32)>) -> Seq<(Seq<char>, u32)> {
    v.map_values(|p: (String, u32)| (p.0@, p.1))
}

/// The `key=value` words of `s` whose value is a number. Other words are
/// passed over.
pub fn kv_pairs(s: &str) -> (out: Vec<(&str, u64)>)
    ensures
        pairs_view(out@) == pairs_of(text::words(s@)),
{
    let words = split_words(s);
    let ghost all = text::texts(words@);
    let mut out: Vec<(&str, u64)> = Vec::new();
    let mut i: usize = 0;
    assert(all.take(0) =~= seq![]);
    assert(pairs_view(out@) =~= seq![]);
    while i < words.len()
        invariant
            i <= words.len(),
            all == text::texts(words@),
            pairs_view(out@) == pairs_of(all.take(i as int)),
        decreases words.len() - i,
    {
        assert(all.take(i + 1).drop_last() =~= all.take(i as int));
        assert(all.take(i + 1).last() == words@[i as int]@);
        let ghost before = pairs_view(out@);
        match split_half(words[i], '=') {
            None => {},
            Some((key, value)) => match read_uint(value, u64::MAX) {
                None => {},
                Some(n) => {
                    out.push((key, n));
                    assert(pairs_view(out@) =~= before.push((key@, n as nat)));
                },
            },
        }
        i += 1;
    }
    assert(all.take(i as int) =~= all);
    out
}

/// The last value up to `max` that `pairs` has for `key`; 0 if there is none.
fn find_latest(pairs: &Vec<(&str, u64)>, key: &str, max: u64) -> (n: u64)
    ensures
        n == latest(pairs_view(pairs@), key@, max as nat),
        n <= max,
{
    let ghost all = pairs_view(pairs@);
    let mut i: usize = pairs.len();
    assert(all.take(i as int) =~= all);
    while i > 0
        invariant
            i <= pairs.len(),
            all == pairs_view(pairs@),
            latest(all.take(i as int), key@, max as nat) == latest(all, key@, max as nat),
        decreases i,
    {
        assert(all.take(i as int).drop_last() =~= all.take(i - 1));
        assert(all.take(i as int).last() == all[i - 1]);
        let (k, n) = pairs[i - 1];
        if same_text(k, key) && n <= max {
            return n;
        }
        i -= 1;
    }
    assert(all.take(0) =~= seq![]);
    0
}

/// Reads the reply to `SKEG.STATS`.
pub fn parse_aggregate(reply: &Reply) -> (r: AggregateStats)
    ensures
        r == aggregate_of(resp::reply_text(reply@)),
{
    let s = frame_as_string(reply);
    let pairs = kv_pairs(s.as_str());
    AggregateStats {
        cache_bytes: find_latest(&pairs, "cache_bytes", u64::MAX),
        evictions: find_latest(&pairs, "evictions", u64::MAX),
        n_keys: find_latest(&pairs, "n_keys", u64::MAX),
        budget: find_latest(&pairs, "budget", u64::MAX),
    }
}

/// Reads the reply to `SKEG.SHARDS`, one line per shard.
pub fn parse_shards(reply: &Reply) -> (out: Vec<ShardStats>)
    ensures
        out@ == shards_of(resp::reply_text(reply@)),
{
    let s = frame_as_string(reply);
    let lines = split_lines(s.as_str());
    let ghost all = text::texts(lines@);
    let mut out: Vec<ShardStats> = Vec::new();
    let mut i: usize = 0;
    assert(all.take(0) =~= seq![]);
    while i < lines.len()
        invariant
            i <= lines.len(),
            all == text::texts(lines@),
            out@ == shards_from(all.take(i as int)),
        decreases lines.len() - i,
    {
        assert(all.take(i + 1).drop_last() =~= all.take(i as int));
        assert(all.take(i + 1).last() == lines@[i as int]@);
        let line = lines[i];
        if !line.is_empty() {
            let pairs = kv_pairs(line);
            out.push(
                ShardStats {
                    shard_id: find_latest(&pairs, "shard", 0xffff_ffff) as u32,
                    cache_bytes: find_latest(&pairs, "cache_bytes", u64::MAX),
                    evictions: find_latest(&pairs, "evictions", u64::MAX),
                    n_keys: find_latest(&pairs, "n_keys", u64::MAX),
                },
            );
        }
        i += 1;
    }
    assert(all.take(i as int) =~= all);
    out
}

/// Reads the name and the dimension of a VINDEX from its line; the name is
/// empty if the line has none.
fn parse_vindex(line: &str) -> (v: (String, u32))
    ensures
        (v.0@, v.1) == vindex_from(fields_of(text::words(line@))),
{
    let words = split_words(line);
    let ghost all = text::texts(words@);
    let mut name = String::new();
    let mut dim: u32 = 0;
    let mut i: usize = 0;
    assert(all.take(0) =~= seq![]);
    while i < words.len()
        invariant
            i <= words.len(),
            all == text::texts(words@),
            name@ == latest_text(fields_of(all.take(i as int)), "name"@),
            dim == latest_number(fields_of(all.take(i as int)), "dim"@, u32::MAX as nat),
        decreases words.len() - i,
    {
        let ghost before = fields_of(all.take(i as int));
        assert(all.take(i + 1).drop_last() =~= all.take(i as int));
        assert(all.take(i + 1).last() == words@[i as int]@);
        match split_half(words[i], '=') {
            None => {},
            Some((key, value)) => {
                assert(before.push((key@, value@)).drop_last() =~= before);
                assert("name"@.len() != "dim"@.len()) by {
                    reveal_strlit("name");
                    reveal_strlit("dim");
                }
                assert(fields_of(all.take(i + 1)) == before.push((key@, value@)));
                if same_text(key, "name") {
                    name = value.to_owned();
                } else if same_text(key, "dim") {
                    match read_uint(value, 0xffff_ffff) {
                        Some(d) => {
                            dim = d as u32;
                        },
                        None => {},
                    }
                }
            },
        }
        i += 1;
    }
    assert(all.take(i as int) =~= all);
    (name, dim)
}

/// Reads the reply to `SKEG.VINDEX.LIST`, one
/// `name=<n> dim=<d> kind=<k> backend=<b> n_vectors=<v>` line per index.
pub fn parse_vindexes(reply: &Reply) -> (out: Vec<(String, u32)>)
    ensures
        vindexes_view(out@) == vindexes_of(resp::reply_text(reply@)),
{
    let s = frame_as_string(reply);
    let lines = split_lines(s.as_str());
    let ghost all = text::texts(lines@);
    let mut out: Vec<(String, u32)> = Vec::new();
    let mut i: usize = 0;
    assert(all.take(0) =~= seq![]);
    assert(vindexes_view(out@) =~= seq![]);
    while i < lines.len()
        invariant
            i <= lines.len(),
            all == text::texts(lines@),
            vindexes_view(out@) == vindexes_from(all.take(i as int)),
        decreases lines.len() - i,
    {
        assert(all.take(i + 1).drop_last() =~= all.take(i as int));
        assert(all.take(i + 1).last() == lines@[i as int]@);
        let ghost before = vindexes_view(out@);
        let v = parse_vindex(lines[i]);
        let ghost entry = (v.0@, v.1);
        if !v.0.as_str().is_empty() {
            out.push(v);
            assert(vindexes_view(out@) =~= before.push(entry));
        }
        i += 1;
    }
    assert(all.take(i as int) =~= all);
    out
}

/// Why a `stats` call fails, other than by the connection itself.
#[derive(Debug)]
pub enum FetchError {
    /// The server refused `HELLO 3` with this error line.
    HelloRefused(String),
    /// The reply to `HELLO 3` is not a map.
    HelloNotAMap,
    /// The server closed the connection before a whole reply was there.
    Closed,
    /// The bytes received are no reply; what is wrong with them, in words.
    Protocol(String),
}

/// What a [`FetchError`] holds.
#[verifier::ext_equal]
pub enum FetchErrorView {
    HelloRefused(Seq<char>),
    HelloNotAMap,
    Closed,
    Protocol(Seq<char>),
}

/// What a [`ServerInfo`] holds.
#[verifier::ext_equal]
pub struct ServerInfoView {
    pub version: Seq<char>,
    pub mode: Seq<char>,
}

/// What a [`ServerStats`] holds.
#[verifier::ext_equal]
pub struct ServerStatsView {
    pub info: ServerInfoView,
    pub aggregate: AggregateStats,
    pub shards: Seq<ShardStats>,
    pub vindexes: Seq<(Seq<char>, u32)>,
}

impl View for FetchError {
    type V = FetchErrorView;

    open spec fn view(&self) -> FetchErrorView {
        match *self {
            FetchError::HelloRefused(e) => FetchErrorView::HelloRefused(e@),
            FetchError::HelloNotAMap => FetchErrorView::HelloNotAMap,
            FetchError::Closed => FetchErrorView::Closed,
            FetchError::Protocol(e) => FetchErrorView::Protocol(e@),
        }
    }
}

impl View for ServerInfo {
    type V = ServerInfoView;

    open spec fn view(&self) -> ServerInfoView {
        ServerInfoView { version: self.version@, mode: self.mode@ }
    }
}

impl View for ServerStats {
    type V = ServerStatsView;

    open spec fn view(&self) -> ServerStatsView {
        ServerStatsView {
            info: self.info@,
            aggregate: self.aggregate,
            shards: self.shards@,
            vindexes: vindexes_view(self.vindexes@),
        }
    }
}

/// The texts of the keys and values of a map.
pub open spec fn pair_texts(m: Seq<(resp::ScalarView, resp::ScalarView)>) -> Seq<
    (Seq<char>, Seq<char>),
> {
    m.map_values(
        |p: (resp::ScalarView, resp::ScalarView)|
            (resp::scalar_text(p.0), resp::scalar_text(p.1)),
    )
}

/// What the reply to `HELLO 3` says of the server.
pub open spec fn hello_of(reply: resp::ReplyView) -> Result<ServerInfoView, FetchErrorView> {
    match reply {
        resp::ReplyView::Pairs(m) => Ok(
            ServerInfoView {
                version: latest_text(pair_texts(m), "version"@),
                mode: latest_text(pair_texts(m), "mode"@),
            },
        ),
        resp::ReplyView::Error(e) => Err(FetchErrorView::HelloRefused(e)),
        resp::ReplyView::Single(s) => Err(FetchErrorView::HelloNotAMap),
    }
}

fn read_hello_pairs(m: &Vec<(Scalar, Scalar)>) -> (info: ServerInfo)
    ensures
        info.version@ == latest_text(
            pair_texts(m@.map_values(|p: (Scalar, Scalar)| (p.0@, p.1@))),
            "version"@,
        ),
        info.mode@ == latest_text(
            pair_texts(m@.map_values(|p: (Scalar, Scalar)| (p.0@, p.1@))),
            "mode"@,
        ),
{
    let ghost all = pair_texts(m@.map_values(|p: (Scalar, Scalar)| (p.0@, p.1@)));
    let mut version = String::new();
    let mut mode = String::new();
    let mut i: usize = 0;
    while i < m.len()
        invariant
            i <= m.len(),
            all == pair_texts(m@.map_values(|p: (Scalar, Scalar)| (p.0@, p.1@))),
            version@ == latest_text(all.take(i as int), "version"@),
            mode@ == latest_text(all.take(i as int), "mode"@),
        decreases m.len() - i,
    {
        let key = scalar_as_string(&m[i].0);
        let value = scalar_as_string(&m[i].1);
        assert(all.take(i + 1).drop_last() =~= all.take(i as int));
        assert(all.take(i + 1).last() == (key@, value@));
        assert("version"@.len() != "mode"@.len()) by {
            reveal_strlit("version");
            reveal_strlit("mode");
        }
        if same_text(key.as_str(), "version") {
            version = value;
        } else if same_text(key.as_str(), "mode") {
            mode = value;
        }
        i += 1;
    }
    assert(all.take(i as int) =~= all);
    ServerInfo { version, mode }
}

/// Reads the reply to `HELLO 3`.
pub fn parse_hello(reply: &Reply) -> (r: Result<ServerInfo, FetchError>)
    ensures
        match r {
            Ok(info) => hello_of(reply@) == Ok::<ServerInfoView, FetchErrorView>(info@),
            Err(e) => hello_of(reply@) == Err::<ServerInfoView, FetchErrorView>(e@),
        },
{
    match reply {
        Reply::Pairs(m) => Ok(read_hello_pairs(m)),
        Reply::Error(e) => Err(FetchError::HelloRefused(e.clone())),
        Reply::Single(_) => Err(FetchError::HelloNotAMap),
    }
}

/// Which reply a `stats` call waits for, and what the earlier ones said.
#[derive(Debug)]
pub enum Stage {
    Hello,
    Stats { info: ServerInfo },
    Shards { info: ServerInfo, aggregate: AggregateStats },
    Vindexes { info: ServerInfo, aggregate: AggregateStats, shards: Vec<ShardStats> },
}

/// How far a `stats` call has come.
#[derive(Debug)]
pub struct FetchState {
    pub stage: Stage,
    /// What has been received since the last command was sent.
    pub received: Vec<u8>,
}

/// What is to be done next.
#[derive(Debug)]
pub enum FetchStep {
    /// Read what the connection still holds, without waiting for more, and
    /// hand it to [`discard`].
    Discard(FetchState),
    /// Send these bytes, then receive.
    Send(FetchState, Vec<u8>),
    /// Receive more bytes.
    Receive(FetchState),
    /// The call is complete.
    Finish(ServerStats),
    /// The call has failed.
    Fail(FetchError),
}

/// What a [`Stage`] holds.
#[verifier::ext_equal]
pub enum StageView {
    Hello,
    Stats { info: ServerInfoView },
    Shards { info: ServerInfoView, aggregate: AggregateStats },
    Vindexes { info: ServerInfoView, aggregate: AggregateStats, shards: Seq<ShardStats> },
}

/// What a [`FetchState`] holds.
#[verifier::ext_equal]
pub struct FetchStateView {
    pub stage: StageView,
    pub received: Seq<u8>,
}

/// What a [`FetchStep`] holds.
#[verifier::ext_equal]
pub enum FetchStepView {
    Discard(FetchStateView),
    Send(FetchStateView, Seq<u8>),
    Receive(FetchStateView),
    Finish(ServerStatsView),
    Fail(FetchErrorView),
}

impl View for Stage {
    type V = StageView;

    open spec fn view(&self) -> StageView {
        match *self {
            Stage::Hello => StageView::Hello,
            Stage::Stats { info } => StageView::Stats { info: info@ },
            Stage::Shards { info, aggregate } => StageView::Shards { info: info@, aggregate },
            Stage::Vindexes { info, aggregate, shards } => StageView::Vindexes {
                info: info@,
                aggregate,
                shards: shards@,
            },
        }
    }
}

impl View for FetchState {
    type V = FetchStateView;

    open spec fn view(&self) -> FetchStateView {
        FetchStateView { stage: self.stage@, received: self.received@ }
    }
}

impl View for FetchStep {
    type V = FetchStepView;

    open spec fn view(&self) -> FetchStepView {
        match *self {
            FetchStep::Discard(state) => FetchStepView::Discard(state@),
            FetchStep::Send(state, bytes) => FetchStepView::Send(state@, bytes@),
            FetchStep::Receive(state) => FetchStepView::Receive(state@),
            FetchStep::Finish(stats) => FetchStepView::Finish(stats@),
            FetchStep::Fail(e) => FetchStepView::Fail(e@),
        }
    }
}

/// The words of the command whose reply a stage waits for.
pub open spec fn command_of(stage: StageView) -> Seq<Seq<char>> {
    match stage {
        StageView::Hello => seq!["HELLO"@, "3"@],
        StageView::Stats { info } => seq!["SKEG.STATS"@],
        StageView::Shards { info, aggregate } => seq!["SKEG.SHARDS"@],
        StageView::Vindexes { info, aggregate, shards } => seq!["SKEG.VINDEX.LIST"@],
    }
}

/// The step that begins a stage. Nothing that was received before is kept.
pub open spec fn enter(stage: StageView) -> FetchStepView {
    FetchStepView::Discard(FetchStateView { stage, received: seq![] })
}

/// The step that follows when `unread` is read before a command is sent: it is
/// discarded, and once there is none left, the command of the stage is sent.
pub open spec fn after_discard(state: FetchStateView, unread: Seq<u8>) -> FetchStepView {
    if unread.len() > 0 {
        enter(state.stage)
    } else {
        FetchStepView::Send(
            FetchStateView { stage: state.stage, received: seq![] },
            resp::command_bytes(command_of(state.stage)),
        )
    }
}

/// The step that follows the reply that a stage waits for.
pub open spec fn after_reply(stage: StageView, reply: resp::ReplyView) -> FetchStepView {
    let s = resp::reply_text(reply);
    match stage {
        StageView::Hello => match hello_of(reply) {
            Ok(info) => enter(StageView::Stats { info }),
            Err(e) => FetchStepView::Fail(e),
        },
        StageView::Stats { info } => enter(
            StageView::Shards { info, aggregate: aggregate_of(s) },
        ),
        StageView::Shards { info, aggregate } => enter(
            StageView::Vindexes { info, aggregate, shards: shards_of(s) },
        ),
        StageView::Vindexes { info, aggregate, shards } => FetchStepView::Finish(
            ServerStatsView { info, aggregate, shards, vindexes: vindexes_of(s) },
        ),
    }
}

/// The step that follows from what was found in the bytes received.
pub open spec fn after_parse(
    state: FetchStateView,
    found: Result<Option<resp::ReplyView>, Seq<char>>,
) -> FetchStepView {
    match found {
        Ok(Some(reply)) => after_reply(state.stage, reply),
        Ok(None) => FetchStepView::Receive(state),
        Err(e) => FetchStepView::Fail(FetchErrorView::Protocol(e)),
    }
}

/// The step that follows when `chunk` is received. An empty chunk is the end
/// of the connection.
pub open spec fn after_chunk(state: FetchStateView, chunk: Seq<u8>) -> FetchStepView {
    if chunk.len() == 0 {
        FetchStepView::Fail(FetchErrorView::Closed)
    } else {
        let received = state.received + chunk;
        after_parse(FetchStateView { stage: state.stage, received }, resp::parsed(received))
    }
}

/// Whether `step` is the one that follows when `chunk` is received in `state`.
/// Once a step is more than to receive more, bytes that come with or after
/// `chunk` do not change it.
pub open spec fn is_step(state: FetchStateView, chunk: Seq<u8>, step: FetchStepView) -> bool {
    &&& step == after_chunk(state, chunk)
    &&& chunk.len() > 0 && !(step is Receive) ==> forall|rest: Seq<u8>| #[trigger]
        after_chunk(state, chunk + rest) == step
}

fn begin(stage: Stage) -> (step: FetchStep)
    ensures
        step@ == enter(stage@),
{
    let received: Vec<u8> = Vec::new();
    assert(received@ =~= seq![]);
    FetchStep::Discard(FetchState { stage, received })
}

/// The first step of a `stats` call.
pub fn start_fetch() -> (step: FetchStep)
    ensures
        step@ == enter(StageView::Hello),
{
    begin(Stage::Hello)
}

/// The command of a stage, on the wire.
fn encode_stage(stage: &Stage) -> (bytes: Vec<u8>)
    ensures
        bytes@ == resp::command_bytes(command_of(stage@)),
{
    match stage {
        Stage::Hello => {
            let args = ["HELLO", "3"];
            assert(args@.map_values(|a: &str| a@) =~= seq!["HELLO"@, "3"@]);
            encode_command(&args)
        },
        Stage::Stats { .. } => {
            let args = ["SKEG.STATS"];
            assert(args@.map_values(|a: &str| a@) =~= seq!["SKEG.STATS"@]);
            encode_command(&args)
        },
        Stage::Shards { .. } => {
            let args = ["SKEG.SHARDS"];
            assert(args@.map_values(|a: &str| a@) =~= seq!["SKEG.SHARDS"@]);
            encode_command(&args)
        },
        Stage::Vindexes { .. } => {
            let args = ["SKEG.VINDEX.LIST"];
            assert(args@.map_values(|a: &str| a@) =~= seq!["SKEG.VINDEX.LIST"@]);
            encode_command(&args)
        },
    }
}

/// The step that follows when `unread` is read before a command is sent. It is
/// empty once the connection holds nothing more.
pub fn discard(state: FetchState, unread: &[u8]) -> (step: FetchStep)
    ensures
        step@ == after_discard(state@, unread@),
{
    if unread.len() > 0 {
        return begin(state.stage);
    }
    let bytes = encode_stage(&state.stage);
    let received: Vec<u8> = Vec::new();
    assert(received@ =~= seq![]);
    FetchStep::Send(FetchState { stage: state.stage, received }, bytes)
}

/// The step that follows from what was found in the bytes received.
pub fn handle_parsed(state: FetchState, found: Result<Option<Reply>, String>) -> (step: FetchStep)
    ensures
        step@ == after_parse(state@, resp::parsed_view(found)),
{
    let reply = match found {
        Ok(Some(reply)) => reply,
        Ok(None) => {
            return FetchStep::Receive(state);
        },
        Err(e) => {
            return FetchStep::Fail(FetchError::Protocol(e));
        },
    };
    match state.stage {
        Stage::Hello => match parse_hello(&reply) {
            Ok(info) => begin(Stage::Stats { info }),
            Err(e) => FetchStep::Fail(e),
        },
        Stage::Stats { info } => begin(
            Stage::Shards { info, aggregate: parse_aggregate(&reply) },
        ),
        Stage::Shards { info, aggregate } => begin(
            Stage::Vindexes { info, aggregate, shards: parse_shards(&reply) },
        ),
        Stage::Vindexes { info, aggregate, shards } => FetchStep::Finish(
            ServerStats { info, aggregate, shards, vindexes: parse_vindexes(&reply) },
        ),
    }
}

/// The step that follows when `chunk` is received. An empty chunk is the end
/// of the connection.
///
/// A reply counts as soon as it is whole, whatever has come after it. A status
/// or error line is whole when its end is there, and until then more is
/// received.
pub fn fetch(state: FetchState, chunk: &[u8]) -> (step: FetchStep)
    ensures
        is_step(state@, chunk@, step@),
        chunk.len() > 0 ==> resp::lines_are_read(
            state@.received + chunk@,
            resp::parsed(state@.received + chunk@),
        ),
{
    if chunk.len() == 0 {
        return FetchStep::Fail(FetchError::Closed);
    }
    let ghost before = state@;
    let FetchState { stage, received } = state;
    let mut received = received;
    crate::encoding::push_all(&mut received, chunk);
    let found = parse_reply(received.as_slice());
    let ghost all = received@;
    let step = handle_parsed(FetchState { stage, received }, found);
    proof {
        if !(step@ is Receive) {
            assert forall|rest: Seq<u8>| #[trigger] after_chunk(before, chunk@ + rest)
                == step@ by {
                assert(before.received + (chunk@ + rest) =~= all + rest);
                assert(resp::parsed(all + rest) == resp::parsed(all));
            }
        }
    }
    step
}

/// What a connection that delivers the bytes `s` and then closes answers.
pub open spec fn reply_in(s: Seq<u8>) -> Result<resp::ReplyView, FetchErrorView> {
    match resp::parsed(s) {
        Ok(Some(reply)) => Ok(reply),
        Ok(None) => Err(FetchErrorView::Closed),
        Err(e) => Err(FetchErrorView::Protocol(e)),
    }
}

/// The bytes of chunks, one after the other.
pub open spec fn all_bytes(chunks: Seq<Vec<u8>>) -> Seq<u8>
    decreases chunks.len(),
{
    if chunks.len() == 0 {
        seq![]
    } else {
        all_bytes(chunks.drop_last()) + chunks.last()@
    }
}

proof fn lemma_all_bytes_begin(chunks: Seq<Vec<u8>>, n: int) -> (rest: Seq<u8>)
    requires
        0 <= n <= chunks.len(),
    ensures
        all_bytes(chunks) == all_bytes(chunks.take(n)) + rest,
    decreases chunks.len() - n,
{
    if n < chunks.len() {
        let rest = lemma_all_bytes_begin(chunks, n + 1);
        assert(chunks.take(n + 1).drop_last() =~= chunks.take(n));
        assert(all_bytes(chunks.take(n)) + (chunks[n]@ + rest) =~= all_bytes(chunks.take(n + 1))
            + rest);
        chunks[n]@ + rest
    } else {
        assert(chunks.take(n) =~= chunks);
        assert(all_bytes(chunks) + Seq::<u8>::empty() =~= all_bytes(chunks));
        Seq::empty()
    }
}

/// Reads one reply from a connection that delivers `chunks` and then closes.
/// The result depends on the bytes alone, not on the chunks they come in, and
/// bytes after a whole reply do not change it.
pub fn read_one_frame(chunks: &Vec<Vec<u8>>) -> (r: Result<Reply, FetchError>)
    ensures
        match r {
            Ok(reply) => reply_in(all_bytes(chunks@)) == Ok::<resp::ReplyView, FetchErrorView>(
                reply@,
            ),
            Err(e) => reply_in(all_bytes(chunks@)) == Err::<resp::ReplyView, FetchErrorView>(e@),
        },
        !(r matches Err(FetchError::Closed)) ==> forall|rest: Seq<u8>| #[trigger]
            reply_in(all_bytes(chunks@) + rest) == reply_in(all_bytes(chunks@)),
{
    let mut received: Vec<u8> = Vec::new();
    let mut i: usize = 0;
    assert(chunks@.take(0) =~= seq![]);
    assert(received@ =~= seq![]);
    loop
        invariant
            i <= chunks.len(),
            received@ == all_bytes(chunks@.take(i as int)),
        decreases chunks.len() - i,
    {
        let found = parse_reply(received.as_slice());
        proof {
            let rest = lemma_all_bytes_begin(chunks@, i as int);
            assert(resp::parsed(received@) != Ok::<Option<resp::ReplyView>, Seq<char>>(None)
                ==> resp::parsed(received@ + rest) == resp::parsed(received@));
            assert forall|more: Seq<u8>|
                resp::parsed(received@) != Ok::<Option<resp::ReplyView>, Seq<char>>(
                    None,
                ) implies #[trigger] reply_in(all_bytes(chunks@) + more) == reply_in(
                received@,
            ) by {
                assert(all_bytes(chunks@) + more =~= received@ + (rest + more));
            }
        }
        match found {
            Ok(Some(reply)) => {
                return Ok(reply);
            },
            Err(e) => {
                return Err(FetchError::Protocol(e));
            },
            Ok(None) => {},
        }
        if i == chunks.len() {
            assert(chunks@.take(i as int) =~= chunks@);
            return Err(FetchError::Closed);
        }
        crate::encoding::push_all(&mut received, chunks[i].as_slice());
        assert(chunks@.take(i + 1).drop_last() =~= chunks@.take(i as int));
        i += 1;
    }
}

impl FetchError {
    /// What kind of error this is.
    pub fn kind(&self) -> (r: ErrorKind)
        ensures
            r == (match *self {
                FetchError::Closed => ErrorKind::UnexpectedEof,
                _ => ErrorKind::Other,
            }),
    {
        match self {
            FetchError::Closed => ErrorKind::UnexpectedEof,
            _ => ErrorKind::Other,
        }
    }

    /// The error in words.
    pub fn message(&self) -> (s: String)
        ensures
            s@ == (match self@ {
                FetchErrorView::HelloRefused(e) => "HELLO failed: "@ + e,
                FetchErrorView::HelloNotAMap => "HELLO returned a non-map frame"@,
                FetchErrorView::Closed => "server closed the connection mid-frame"@,
                FetchErrorView::Protocol(e) => "RESP3 parse error: "@ + e,
            }),
    {
        match self {
            FetchError::HelloRefused(e) => {
                let mut s = "HELLO failed: ".to_owned();
                s.append(e.as_str());
                s
            },
            FetchError::HelloNotAMap => "HELLO returned a non-map frame".to_owned(),
            FetchError::Closed => "server closed the connection mid-frame".to_owned(),
            FetchError::Protocol(e) => {
                let mut s = "RESP3 parse error: ".to_owned();
                s.append(e.as_str());
                s
            },
        }
    }
}

/// The line on one shard.
pub open spec fn shard_line(s: ShardStats) -> Seq<char> {
    "  shard-"@ + number::decimal(s.shard_id as nat) + ": cache_bytes="@ + number::decimal(
        s.cache_bytes as nat,
    ) + " evictions="@ + number::decimal(s.evictions as nat) + " n_keys="@ + number::decimal(
        s.n_keys as nat,
    ) + "\n"@
}

/// The lines on shards.
pub open spec fn shard_lines(shards: Seq<ShardStats>) -> Seq<char>
    decreases shards.len(),
{
    if shards.len() == 0 {
        seq![]
    } else {
        shard_lines(shards.drop_last()) + shard_line(shards.last())
    }
}

/// The line on one VINDEX.
pub open spec fn vindex_line(v: (Seq<char>, u32)) -> Seq<char> {
    "  "@ + v.0 + " (dim="@ + number::decimal(v.1 as nat) + ")\n"@
}

/// The lines on VINDEXes.
pub open spec fn vindex_lines(vindexes: Seq<(Seq<char>, u32)>) -> Seq<char>
    decreases vindexes.len(),
{
    if vindexes.len() == 0 {
        seq![]
    } else {
        vindex_lines(vindexes.drop_last()) + vindex_line(vindexes.last())
    }
}

/// A server's counters as they are printed.
pub open spec fn stats_text(s: ServerStatsView) -> Seq<char> {
    let a = s.aggregate;
    "server     version="@ + s.info.version + " mode="@ + s.info.mode + "\n"@
        + "aggregate  cache_bytes="@ + number::decimal(a.cache_bytes as nat) + " evictions="@
        + number::decimal(a.evictions as nat) + " n_keys="@ + number::decimal(a.n_keys as nat)
        + " budget="@ + number::decimal(a.budget as nat) + "\n"@ + (if s.shards.len() == 0 {
        seq![]
    } else {
        "shards     "@ + number::decimal(s.shards.len()) + "\n"@ + shard_lines(s.shards)
    }) + (if s.vindexes.len() == 0 {
        "vindexes   (none)\n"@
    } else {
        "vindexes   "@ + number::decimal(s.vindexes.len()) + "\n"@ + vindex_lines(s.vindexes)
    })
}

fn write_shard(out: &mut String, s: &ShardStats)
    ensures
        final(out)@ == old(out)@ + shard_line(*s),
{
    out.append("  shard-");
    out.append(write_uint(s.shard_id as u128).as_str());
    out.append(": cache_bytes=");
    out.append(write_uint(s.cache_bytes as u128).as_str());
    out.append(" evictions=");
    out.append(write_uint(s.evictions as u128).as_str());
    out.append(" n_keys=");
    out.append(write_uint(s.n_keys as u128).as_str());
    out.append("\n");
    assert(out@ =~= old(out)@ + shard_line(*s));
}

fn write_shards(out: &mut String, shards: &Vec<ShardStats>)
    ensures
        final(out)@ == old(out)@ + shard_lines(shards@),
{
    let mut i: usize = 0;
    assert(shards@.take(0) =~= seq![]);
    assert(out@ =~= old(out)@ + shard_lines(shards@.take(0)));
    while i < shards.len()
        invariant
            i <= shards.len(),
            out@ == old(out)@ + shard_lines(shards@.take(i as int)),
        decreases shards.len() - i,
    {
        write_shard(out, &shards[i]);
        assert(shards@.take(i + 1).drop_last() =~= shards@.take(i as int));
        assert(out@ =~= old(out)@ + shard_lines(shards@.take(i + 1)));
        i += 1;
    }
    assert(shards@.take(i as int) =~= shards@);
}

fn write_vindexes(out: &mut String, vindexes: &Vec<(String, u32)>)
    ensures
        final(out)@ == old(out)@ + vindex_lines(vindexes_view(vindexes@)),
{
    let ghost all = vindexes_view(vindexes@);
    let mut i: usize = 0;
    assert(all.take(0) =~= seq![]);
    assert(out@ =~= old(out)@ + vindex_lines(all.take(0)));
    while i < vindexes.len()
        invariant
            i <= vindexes.len(),
            all == vindexes_view(vindexes@),
            out@ == old(out)@ + vindex_lines(all.take(i as int)),
        decreases vindexes.len() - i,
    {
        let ghost before = out@;
        out.append("  ");
        out.append(vindexes[i].0.as_str());
        out.append(" (dim=");
        out.append(write_uint(vindexes[i].1 as u128).as_str());
        out.append(")\n");
        assert(out@ =~= before + vindex_line(all[i as int]));
        assert(all.take(i + 1).drop_last() =~= all.take(i as int));
        assert(out@ =~= old(out)@ + vindex_lines(all.take(i + 1)));
        i += 1;
    }
    assert(all.take(i as int) =~= all);
}

impl ServerStats {
    /// The counters as they are printed.
    pub fn render(&self) -> (out: String)
        ensures
            out@ == stats_text(self@),
    {
        let mut out = "server     version=".to_owned();
        out.append(self.info.version.as_str());
        out.append(" mode=");
        out.append(self.info.mode.as_str());
        out.append("\n");
        out.append("aggregate  cache_bytes=");
        out.append(write_uint(self.aggregate.cache_bytes as u128).as_str());
        out.append(" evictions=");
        out.append(write_uint(self.aggregate.evictions as u128).as_str());
        out.append(" n_keys=");
        out.append(write_uint(self.aggregate.n_keys as u128).as_str());
        out.append(" budget=");
        out.append(write_uint(self.aggregate.budget as u128).as_str());
        out.append("\n");
        if self.shards.len() > 0 {
            out.append("shards     ");
            out.append(write_uint(self.shards.len() as u128).as_str());
            out.append("\n");
            write_shards(&mut out, &self.shards);
        }
        if self.vindexes.len() == 0 {
            out.append("vindexes   (none)\n");
        } else {
            out.append("vindexes   ");
            out.append(write_uint(self.vindexes.len() as u128).as_str());
            out.append("\n");
            write_vindexes(&mut out, &self.vindexes);
        }
        assert(out@ =~= stats_text(self@));
        out
    }
}

} // verus!
