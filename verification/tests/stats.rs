use skeg_cli::error::ErrorKind;
use skeg_cli::resp::{frame_as_string, scalar_as_string, Reply, Scalar};
use skeg_cli::stats::{
    discard, fetch, handle_parsed, kv_pairs, parse_aggregate, parse_hello, parse_shards, parse_vindexes,
    read_one_frame,
    start_fetch, AggregateStats, FetchError, FetchState, FetchStep, ServerInfo, ServerStats,
    ShardStats, Stage,
};

fn simple(s: &str) -> Reply {
    Reply::Single(Scalar::Simple(s.to_string()))
}

#[test]
fn aggregate_parses_known_keys_ignores_unknown() {
    let f = simple("cache_bytes=128 evictions=2 n_keys=4 budget=1024 future=99");
    let agg = parse_aggregate(&f);
    assert_eq!(agg.cache_bytes, 128);
    assert_eq!(agg.evictions, 2);
    assert_eq!(agg.n_keys, 4);
    assert_eq!(agg.budget, 1024);
}

#[test]
fn shards_parses_one_line_per_shard() {
    let f = simple(
        "shard=0 cache_bytes=10 evictions=0 n_keys=1\nshard=1 cache_bytes=20 evictions=0 n_keys=2",
    );
    let v = parse_shards(&f);
    assert_eq!(v.len(), 2);
    assert_eq!(v[0].shard_id, 0);
    assert_eq!(v[0].cache_bytes, 10);
    assert_eq!(v[1].shard_id, 1);
    assert_eq!(v[1].n_keys, 2);
}

#[test]
fn vindexes_parses_name_and_dim() {
    let f = simple(
        "name=docs dim=4 kind=int8 backend=flat n_vectors=0\nname=other dim=128 kind=f32 backend=disk n_vectors=10",
    );
    let v = parse_vindexes(&f);
    assert_eq!(v, vec![("docs".into(), 4), ("other".into(), 128)]);
}

#[test]
fn vindexes_empty_on_no_output() {
    let f = simple("");
    assert!(parse_vindexes(&f).is_empty());
}

#[test]
fn added_words_do_not_matter() {
    let v = parse_shards(&simple("shard=3 n_keys=2 budget=7 future=99 novel"));
    assert_eq!(v, parse_shards(&simple("shard=3 n_keys=2")));
    assert_eq!((v[0].shard_id, v[0].n_keys), (3, 2));
    let v = parse_vindexes(&simple("name=docs dim=4 kind= backend= n_vectors=0"));
    assert_eq!(v, vec![("docs".into(), 4)]);
}

#[test]
fn lines_are_read_one_by_one() {
    let texts = ["", "\n", "name=a dim=1", "name=b dim=2\r", "x\nname=c\n\nshard=4\r\nn_keys=5", "\r"];
    for a in texts {
        for b in texts {
            let both = simple(&format!("{a}\n{b}"));
            let mut vindexes = parse_vindexes(&simple(a));
            vindexes.extend(parse_vindexes(&simple(b)));
            assert_eq!(parse_vindexes(&both), vindexes);
            if a != "\r" {
                let mut shards = parse_shards(&simple(a));
                shards.extend(parse_shards(&simple(b)));
                assert_eq!(parse_shards(&both), shards);
            }
        }
    }
    assert_eq!(parse_shards(&simple("\r")).len(), 1);
    assert_eq!(parse_shards(&simple("\r\n")).len(), 0);
}

#[test]
fn pairs_pass_over_what_is_no_number() {
    assert_eq!(
        kv_pairs("a=1  b\tc=x d=-1 e=+7 f==2 g=18446744073709551616 =3 a=2 h="),
        vec![("a", 1), ("e", 7), ("", 3), ("a", 2)]
    );
    assert_eq!(parse_aggregate(&simple("n_keys=1 n_keys=x n_keys=3")).n_keys, 3);
    assert_eq!(parse_aggregate(&simple("nothing")), AggregateStats::default());
}

#[test]
fn shards_skip_empty_lines_and_large_numbers() {
    let v = parse_shards(&simple("shard=7 shard=4294967296 n_keys=1\r\n\n\nother\n"));
    assert_eq!(
        v,
        vec![
            ShardStats { shard_id: 7, cache_bytes: 0, evictions: 0, n_keys: 1 },
            ShardStats::default(),
        ]
    );
}

#[test]
fn vindexes_need_a_name() {
    let v = parse_vindexes(&simple("dim=4\nname= dim=1\nname=a=b dim=4294967296\nname=c name=d dim=x dim=2"));
    assert_eq!(v, vec![("a=b".into(), 0), ("d".into(), 2)]);
}

#[test]
fn scalars_are_shown_as_text() {
    assert_eq!(scalar_as_string(&Scalar::Simple("s".into())), "s");
    assert_eq!(scalar_as_string(&Scalar::Bulk(b"b\xff".to_vec())), "b\u{fffd}");
    assert_eq!(scalar_as_string(&Scalar::Verbatim(b"v".to_vec())), "v");
    assert_eq!(scalar_as_string(&Scalar::Integer(-42)), "-42");
    assert_eq!(scalar_as_string(&Scalar::Integer(i64::MIN)), "-9223372036854775808");
    assert_eq!(scalar_as_string(&Scalar::Double("2.5".into())), "2.5");
    assert_eq!(scalar_as_string(&Scalar::Boolean(true)), "true");
    assert_eq!(scalar_as_string(&Scalar::Boolean(false)), "false");
    assert_eq!(scalar_as_string(&Scalar::Other), "");
    assert_eq!(frame_as_string(&Reply::Error("ERR".into())), "");
    assert_eq!(frame_as_string(&Reply::Pairs(Vec::new())), "");
}

#[test]
fn hello_takes_version_and_mode() {
    let pairs = vec![
        (Scalar::Bulk(b"server".to_vec()), Scalar::Bulk(b"skeg".to_vec())),
        (Scalar::Bulk(b"version".to_vec()), Scalar::Bulk(b"0.1.1".to_vec())),
        (Scalar::Simple("mode".into()), Scalar::Simple("standalone".into())),
    ];
    let info = parse_hello(&Reply::Pairs(pairs)).unwrap();
    assert_eq!((info.version.as_str(), info.mode.as_str()), ("0.1.1", "standalone"));
    let e = parse_hello(&Reply::Error("NOPROTO".into())).unwrap_err();
    assert_eq!(e.message(), "HELLO failed: NOPROTO");
    let e = parse_hello(&simple("OK")).unwrap_err();
    assert_eq!(e.message(), "HELLO returned a non-map frame");
    assert_eq!(e.kind(), ErrorKind::Other);
}

/// Discards nothing and sends the command.
fn sent(step: FetchStep) -> (FetchState, Vec<u8>) {
    match step {
        FetchStep::Discard(state) => match discard(state, b"") {
            FetchStep::Send(state, bytes) => (state, bytes),
            other => panic!("expected a command, got {other:?}"),
        },
        other => panic!("expected a discard, got {other:?}"),
    }
}

fn waiting(step: FetchStep) -> FetchState {
    match step {
        FetchStep::Receive(state) => state,
        other => panic!("expected to wait, got {other:?}"),
    }
}

fn failed(step: FetchStep) -> FetchError {
    match step {
        FetchStep::Fail(e) => e,
        other => panic!("expected a failure, got {other:?}"),
    }
}

#[test]
fn a_whole_call() {
    let (state, bytes) = sent(start_fetch());
    assert_eq!(bytes, b"*2\r\n$5\r\nHELLO\r\n$1\r\n3\r\n");
    let hello = b"%3\r\n$7\r\nversion\r\n$5\r\n0.1.1\r\n+mode\r\n+standalone\r\n+proto\r\n:3\r\n";
    // In two pieces, and with bytes after the reply.
    let state = waiting(fetch(state, &hello[..20]));
    let mut rest = hello[20..].to_vec();
    rest.extend_from_slice(b"+junk\r\n");
    let (state, bytes) = sent(fetch(state, &rest));
    assert!(state.received.is_empty());
    assert_eq!(bytes, b"*1\r\n$10\r\nSKEG.STATS\r\n");
    let (state, bytes) =
        sent(fetch(state, b"+cache_bytes=68 evictions=0 n_keys=1 budget=268435456\r\n"));
    assert_eq!(bytes, b"*1\r\n$11\r\nSKEG.SHARDS\r\n");
    let text = "shard=0 cache_bytes=0 evictions=0 n_keys=0\nshard=5 cache_bytes=68 evictions=0 n_keys=1\n";
    let reply = format!("${}\r\n{}\r\n", text.len(), text);
    let (state, bytes) = sent(fetch(state, reply.as_bytes()));
    assert_eq!(bytes, b"*1\r\n$16\r\nSKEG.VINDEX.LIST\r\n");
    let text = "txt:name=docs dim=4 kind=int8 backend=flat n_vectors=0";
    let reply = format!("={}\r\n{}\r\n", text.len(), text);
    let stats = match fetch(state, reply.as_bytes()) {
        FetchStep::Finish(stats) => stats,
        other => panic!("expected the report, got {other:?}"),
    };
    assert_eq!(
        stats.render(),
        "server     version=0.1.1 mode=standalone\naggregate  cache_bytes=68 evictions=0 n_keys=1 budget=268435456\nshards     2\n  shard-0: cache_bytes=0 evictions=0 n_keys=0\n  shard-5: cache_bytes=68 evictions=0 n_keys=1\nvindexes   1\n  docs (dim=4)\n"
    );
}

#[test]
fn replies_of_every_scalar_type() {
    for (wire, version) in [
        ("+v\r\n", "v"),
        ("$1\r\nv\r\n", "v"),
        ("=5\r\ntxt:v\r\n", "v"),
        (":-7\r\n", "-7"),
        (",2.50\r\n", "2.5"),
        (",inf\r\n", "inf"),
        ("#t\r\n", "true"),
        ("#f\r\n", "false"),
        ("_\r\n", ""),
        ("*1\r\n+v\r\n", ""),
        ("-ERR v\r\n", ""),
        ("%0\r\n", ""),
        ("(12\r\n", ""),
    ] {
        let (state, _) = sent(start_fetch());
        let reply = format!("%1\r\n+version\r\n{wire}");
        let (state, _) = sent(fetch(state, reply.as_bytes()));
        match state.stage {
            Stage::Stats { info } => assert_eq!(info.version, version),
            other => panic!("expected the second stage, got {other:?}"),
        }
    }
}

#[test]
fn failures_of_a_call() {
    let (state, _) = sent(start_fetch());
    let e = failed(fetch(state, b""));
    assert_eq!(e.message(), "server closed the connection mid-frame");
    assert_eq!(e.kind(), ErrorKind::UnexpectedEof);

    let (state, _) = sent(start_fetch());
    let e = failed(fetch(state, b"-NOPROTO unsupported\r\n+OK\r\n"));
    assert_eq!(e.message(), "HELLO failed: NOPROTO unsupported");

    let (state, _) = sent(start_fetch());
    let e = failed(fetch(state, b"+OK\r\n"));
    assert_eq!(e.message(), "HELLO returned a non-map frame");

    let (state, _) = sent(start_fetch());
    let e = failed(fetch(state, b"?\r\n"));
    assert_eq!(e.message(), "RESP3 parse error: unknown type marker: 0x3F");
    assert_eq!(e.kind(), ErrorKind::Other);
}

#[test]
fn pieces_do_not_matter() {
    let hello = b"%2\r\n+version\r\n+1\r\n+mode\r\n+m\r\n";
    let (mut state, _) = sent(start_fetch());
    for b in &hello[..hello.len() - 1] {
        state = waiting(fetch(state, &[*b]));
    }
    let (state, _) = sent(fetch(state, &hello[hello.len() - 1..]));
    match state.stage {
        Stage::Stats { info } => assert_eq!((info.version, info.mode), ("1".into(), "m".into())),
        other => panic!("expected the second stage, got {other:?}"),
    }
}

#[test]
fn stale_bytes_are_discarded() {
    let (state, _) = sent(start_fetch());
    let step = fetch(state, b"%1\r\n+version\r\n+1\r\n+stale\r\n");
    let FetchStep::Discard(state) = step else { panic!("expected a discard, got {step:?}") };
    let step = discard(state, b"+n_keys=9\r\n");
    let FetchStep::Discard(state) = step else { panic!("expected a discard, got {step:?}") };
    let step = discard(state, b"more");
    let (state, bytes) = sent(step);
    assert_eq!(bytes, b"*1\r\n$10\r\nSKEG.STATS\r\n");
    assert!(state.received.is_empty());
    let (state, _) = sent(fetch(state, b"+n_keys=3\r\n"));
    match state.stage {
        Stage::Shards { aggregate, .. } => assert_eq!(aggregate.n_keys, 3),
        other => panic!("expected the third stage, got {other:?}"),
    }
}

#[test]
fn one_frame_is_read_from_chunks_of_any_size() {
    let bytes = b"$5\r\nhello\r\n+after\r\n";
    for size in 1..=bytes.len() {
        let chunks: Vec<Vec<u8>> = bytes.chunks(size).map(|c| c.to_vec()).collect();
        assert_eq!(frame_as_string(&read_one_frame(&chunks).unwrap()), "hello");
    }
    for end in 0..11 {
        let e = read_one_frame(&vec![bytes[..end].to_vec()]).unwrap_err();
        assert_eq!(e.message(), "server closed the connection mid-frame");
        assert_eq!(e.kind(), ErrorKind::UnexpectedEof);
    }
    assert_eq!(read_one_frame(&Vec::new()).unwrap_err().kind(), ErrorKind::UnexpectedEof);
    let chunks = vec![b"*2\r\n:1\r\n".to_vec(), b":x\r".to_vec(), b"\n:2\r\n".to_vec()];
    let e = read_one_frame(&chunks).unwrap_err();
    assert_eq!(e.message(), "RESP3 parse error: invalid integer: x");
    let chunks = vec![b"*1\r\n".to_vec(), b"_\r\n(1".to_vec()];
    assert_eq!(frame_as_string(&read_one_frame(&chunks).unwrap()), "");
}

#[test]
fn parsed_replies_decide_the_next_step() {
    let state = FetchState { stage: Stage::Hello, received: vec![1, 2] };
    assert_eq!(waiting(handle_parsed(state, Ok(None))).received, vec![1, 2]);
    let state = FetchState { stage: Stage::Hello, received: vec![1, 2] };
    let e = failed(handle_parsed(state, Err("bad".into())));
    assert_eq!(e.message(), "RESP3 parse error: bad");
    let info = ServerInfo { version: "1".into(), mode: "m".into() };
    let state = FetchState { stage: Stage::Stats { info }, received: Vec::new() };
    let (state, _) = sent(handle_parsed(state, Ok(Some(simple("n_keys=3")))));
    match state.stage {
        Stage::Shards { aggregate, .. } => assert_eq!(aggregate.n_keys, 3),
        other => panic!("expected the third stage, got {other:?}"),
    }
}

#[test]
fn a_report_without_shards_or_vindexes() {
    let s = ServerStats {
        info: ServerInfo { version: "v".into(), mode: "m".into() },
        aggregate: AggregateStats { cache_bytes: 1, evictions: 2, n_keys: 3, budget: u64::MAX },
        shards: Vec::new(),
        vindexes: Vec::new(),
    };
    assert_eq!(
        s.render(),
        "server     version=v mode=m\naggregate  cache_bytes=1 evictions=2 n_keys=3 budget=18446744073709551615\nvindexes   (none)\n"
    );
}
