use rustfrida::trace_bundle::{
    parse_event, read_bundle, read_len, read_repeated_u64, read_string, read_varint, skip_field,
    Event,
};
use rustfrida::trace_dump::{
    dump_bundle, format_addr, format_event, has_magic, low_regs, parse_args, usage, Options, Stats,
    TraceState,
};
use rustfrida::trace_writer::{
    final_trace_path, merged_bundle_tmp_path, ChunkBuffer, ChunkOutcome, PublishStep,
    TraceSessions, WriterStats,
};

fn varint(mut value: u64) -> Vec<u8> {
    let mut bytes = Vec::new();
    while value >= 0x80 {
        bytes.push(value as u8 | 0x80);
        value >>= 7;
    }
    bytes.push(value as u8);
    bytes
}

fn field(number: u64, value: u64) -> Vec<u8> {
    let mut bytes = varint(number << 3);
    bytes.extend(varint(value));
    bytes
}

fn message(number: u64, body: &[u8]) -> Vec<u8> {
    let mut bytes = varint(number << 3 | 2);
    bytes.extend(varint(body.len() as u64));
    bytes.extend(body);
    bytes
}

fn bundle(events: &[Vec<u8>]) -> Vec<u8> {
    let mut data = b"TRB1".to_vec();
    for event in events {
        data.extend(varint(event.len() as u64));
        data.extend(event);
    }
    data
}

fn metadata_event(path: &str, base: u64) -> Vec<u8> {
    let mut body = message(1, path.as_bytes());
    body.extend(field(2, base));
    message(6, &body)
}

#[test]
fn varints_read_back() {
    for value in [0, 1, 0x7f, 0x80, 0x1234_5678, u64::MAX] {
        let bytes = varint(value);
        let mut cursor = 0;
        assert_eq!(read_varint(&mut cursor, &bytes), Ok(value));
        assert_eq!(cursor, bytes.len());
    }
    let mut cursor = 0;
    assert_eq!(read_varint(&mut cursor, &[0x80]).unwrap_err(), "truncated varint");
    let mut cursor = 0;
    assert_eq!(read_varint(&mut cursor, &[0xff; 11]).unwrap_err(), "varint is too long");
}

#[test]
fn strings_have_to_be_utf8() {
    let mut cursor = 0;
    assert_eq!(read_string(&mut cursor, &[3, b'a', b'b', b'c']), Ok("abc".to_string()));
    let mut cursor = 0;
    let error = read_string(&mut cursor, &[1, 0xff]).unwrap_err();
    assert_eq!(
        error,
        format!(
            "invalid utf-8 string: {}",
            String::from_utf8(vec![0xff]).unwrap_err()
        )
    );
    let mut cursor = 0;
    assert_eq!(
        read_len(&mut cursor, &[5, 1]).unwrap_err(),
        "truncated length-delimited field"
    );
}

#[test]
fn unknown_fields_are_skipped_by_their_wire_type() {
    let mut cursor = 0;
    assert_eq!(skip_field(1, &mut cursor, &[0; 8]), Ok(()));
    assert_eq!(cursor, 8);
    let mut cursor = 0;
    assert_eq!(skip_field(5, &mut cursor, &[0; 4]), Ok(()));
    assert_eq!(cursor, 4);
    let mut cursor = 0;
    assert_eq!(skip_field(1, &mut cursor, &[0; 7]).unwrap_err(), "truncated fixed64 field");
    let mut cursor = 0;
    assert_eq!(skip_field(5, &mut cursor, &[0; 3]).unwrap_err(), "truncated fixed32 field");
    let mut cursor = 0;
    assert_eq!(
        skip_field(3, &mut cursor, &[]).unwrap_err(),
        "unsupported protobuf wire type 3"
    );
    let mut cursor = 0;
    assert_eq!(read_repeated_u64(2, &mut cursor, &[2, 1, 2]), Ok(vec![1, 2]));
    let mut cursor = 0;
    assert_eq!(
        read_repeated_u64(5, &mut cursor, &[]).unwrap_err(),
        "unsupported repeated uint64 wire type 5"
    );
}

#[test]
fn events_are_decoded() {
    assert!(matches!(parse_event(&field(1, 0x4010)), Ok(Event::InstructionAddr(0x4010))));
    let mut access = field(1, 1);
    access.extend(field(2, 2));
    access.extend(field(3, 3));
    access.extend(field(4, 4));
    match parse_event(&message(2, &access)).unwrap() {
        Event::MemAccess(mem) => {
            assert_eq!((mem.inst_addr, mem.access_addr, mem.value, mem.size), (1, 2, 3, 4))
        }
        other => panic!("{other:?}"),
    }
    let mut context = message(1, &[1, 2, 3]);
    context.extend(field(2, 0x7000));
    context.extend(message(6, &[9, 9]));
    match parse_event(&message(5, &context)).unwrap() {
        Event::TraceContext(ctx) => {
            assert_eq!(ctx.x, vec![1, 2, 3]);
            assert_eq!((ctx.sp, ctx.q_words), (0x7000, 2));
        }
        other => panic!("{other:?}"),
    }
    let mut chunk = field(1, 0x10);
    chunk.extend(message(4, b"/a"));
    chunk.extend(message(6, &[0; 5]));
    match parse_event(&message(4, &chunk)).unwrap() {
        Event::DynamicExecChunk(chunk) => {
            assert_eq!((chunk.start_addr, chunk.path.as_str(), chunk.data_len), (0x10, "/a", 5))
        }
        other => panic!("{other:?}"),
    }
    assert!(matches!(parse_event(&field(9, 1)), Ok(Event::Unknown)));
}

#[test]
fn a_bundle_is_read_up_to_its_first_error() {
    let mut data = bundle(&[field(1, 1), field(1, 2)]);
    let whole = read_bundle(&data, 4);
    assert_eq!(whole.events.len(), 2);
    assert!(whole.error.is_none());
    data.extend([5, 8]);
    let cut = read_bundle(&data, 4);
    assert_eq!(cut.events.len(), 2);
    assert_eq!(cut.error.unwrap(), "event 2 is truncated");
}

fn arguments(list: &[&str]) -> Vec<String> {
    list.iter().map(|text| text.to_string()).collect()
}

#[test]
fn command_lines_are_checked() {
    let options =
        parse_args(&arguments(&["dump", "--limit", "3", "--summary-only", "a.pb"])).unwrap();
    assert_eq!(options.input, "a.pb");
    assert_eq!(options.limit, Some(3));
    assert!(options.summary_only);
    let text = usage("dump");
    assert_eq!(text, "usage: dump [--limit N] [--summary-only] <trace_bundle.pb>");
    assert_eq!(parse_args(&arguments(&["dump"])).unwrap_err(), text);
    assert_eq!(
        parse_args(&arguments(&["dump", "--limit"])).unwrap_err(),
        format!("--limit requires a value\n{text}")
    );
    assert_eq!(
        parse_args(&arguments(&["dump", "--limit", "x", "a"])).unwrap_err(),
        format!("invalid --limit value x: {}", "x".parse::<usize>().unwrap_err())
    );
    assert_eq!(
        parse_args(&arguments(&["dump", "--what", "a"])).unwrap_err(),
        format!("unknown option --what\n{text}")
    );
    assert_eq!(
        parse_args(&arguments(&["dump", "a", "b"])).unwrap_err(),
        format!("multiple input files provided\n{text}")
    );
}

fn no_stats() -> Stats {
    Stats {
        total: 0,
        instructions: 0,
        mem_accesses: 0,
        external_returns: 0,
        dynamic_chunks: 0,
        contexts: 0,
        metadata: 0,
        unknown: 0,
    }
}

#[test]
fn events_are_shown_relative_to_their_module() {
    let mut state = TraceState { path: None, module_base: 0 };
    let mut stats = no_stats();
    assert_eq!(format_addr(0x4010, &state), "0x0000000000004010");
    let meta = parse_event(&metadata_event("/lib/a.so", 0x4000)).unwrap();
    assert_eq!(
        format_event(0, &meta, &mut state, &mut stats),
        "000000 meta module_base=0x0000000000004000 module_path=/lib/a.so"
    );
    assert_eq!(
        format_event(1, &Event::InstructionAddr(0x4010), &mut state, &mut stats),
        "000001 inst pc=0x0000000000004010 (module+0x10)"
    );
    let mut access = field(1, 0x4010);
    access.extend(field(2, 0x7000));
    access.extend(field(3, 0xff));
    access.extend(field(4, 4));
    let mem = parse_event(&message(2, &access)).unwrap();
    assert_eq!(
        format_event(2, &mem, &mut state, &mut stats),
        "000002 mem  inst=0x0000000000004010 (module+0x10) access=0x0000000000007000 size=4 value=0xff"
    );
    assert_eq!(
        format_event(3, &Event::Unknown, &mut state, &mut stats),
        "000003 unknown"
    );
    assert_eq!(stats.total, 4);
    assert_eq!((stats.metadata, stats.instructions, stats.mem_accesses, stats.unknown), (1, 1, 1, 1));
}

#[test]
fn contexts_show_their_low_registers() {
    let context = message(1, &[1, 2]);
    match parse_event(&message(5, &context)).unwrap() {
        Event::TraceContext(ctx) => assert_eq!(
            low_regs(&ctx),
            " x0=0x1 x1=0x2 x2=0x0 x3=0x0 x4=0x0 x5=0x0 x6=0x0 x7=0x0 lr=0x0"
        ),
        other => panic!("{other:?}"),
    }
}

#[test]
fn a_dump_has_a_head_events_and_a_summary() {
    let data = bundle(&[metadata_event("/lib/a.so", 0x4000), field(1, 0x4010), field(1, 0x4014)]);
    assert!(has_magic(&data));
    assert!(!has_magic(b"TRB"));
    let options = Options { input: "a.pb".to_string(), limit: Some(2), summary_only: false };
    let report = dump_bundle(&options, &data).unwrap();
    assert!(report.error.is_none());
    let expected = [
        "trace_bundle=a.pb",
        "000000 meta module_base=0x0000000000004000 module_path=/lib/a.so",
        "000001 inst pc=0x0000000000004010 (module+0x10)",
        "... truncated event output at --limit 2",
        "summary:",
    ];
    assert_eq!(report.lines[..5], expected);
    assert_eq!(report.lines[5], format!("  bytes={}", data.len()));
    assert_eq!(report.lines[6], "  events=3");
    assert_eq!(report.lines.last().unwrap(), "  module=0x0000000000004000 /lib/a.so");

    let summary = Options { input: "a.pb".to_string(), limit: None, summary_only: true };
    assert_eq!(dump_bundle(&summary, &data).unwrap().lines[1], "summary:");
    assert_eq!(
        dump_bundle(&summary, b"nothing").unwrap_err(),
        "a.pb is not a TRB1 trace bundle"
    );
}

#[test]
fn trace_files_are_named_by_their_session() {
    assert_eq!(final_trace_path("/data"), "/data/trace_bundle.pb");
    assert_eq!(merged_bundle_tmp_path("/data", 3), "/data/trace_bundle.pb.s3.tmp");
    assert_ne!(merged_bundle_tmp_path("/data", 3), merged_bundle_tmp_path("/data", 13));
}

#[test]
fn chunks_keep_the_order_of_the_events() {
    let mut buffer = ChunkBuffer::new(4);
    let mut sent = Vec::new();
    for part in [vec![1, 2, 3], vec![4, 5], vec![6, 6, 6], vec![7]] {
        for submission in buffer.trace_send(part, false) {
            sent.extend(submission.payload);
        }
    }
    sent.extend(buffer.flush_thread_local_chunk().unwrap_or_default());
    assert_eq!(sent, vec![1, 2, 3, 4, 5, 6, 6, 6, 7]);

    assert!(buffer.trace_send(vec![1], false).is_empty());
    let large = buffer.trace_send(vec![2; 5], false);
    assert_eq!(large[0].payload, vec![2; 5]);
    let dynamic = buffer.trace_send(vec![3], true);
    assert!(dynamic[0].dynamic);
    assert_eq!(buffer.flush_thread_local_chunk(), Some(vec![1]));
}

#[test]
fn lost_chunks_are_counted() {
    let mut stats = WriterStats::new();
    stats.submit_chunk_inner(10, false, ChunkOutcome::Written);
    stats.submit_chunk_inner(20, true, ChunkOutcome::WriteFailed);
    stats.submit_chunk_inner(5, false, ChunkOutcome::WriterMissing);
    assert_eq!((stats.chunks_submitted, stats.chunks_dropped), (1, 1));
    assert_eq!((stats.dynamic_chunks_submitted, stats.dynamic_chunks_dropped), (0, 1));
    assert_eq!((stats.bytes_dropped, stats.dynamic_bytes_dropped), (5, 20));
    assert_eq!(stats.max_chunk_bytes, 20);
    stats.count_event(9);
    assert_eq!((stats.event_count, stats.raw_bytes), (1, 9));
}

#[test]
fn sessions_are_published_in_their_order() {
    let mut sessions = TraceSessions::new();
    let first = sessions.start_trace_writer().unwrap();
    sessions.opened("/data", first);
    assert_eq!(sessions.start_trace_writer().unwrap_err(), "trace session already active");
    let writer = sessions.finalize_trace_session().unwrap();
    assert_eq!(writer.tmp_path, merged_bundle_tmp_path("/data", first));
    let second = sessions.start_trace_writer().unwrap();
    assert_ne!(first, second);
    sessions.published(second);
    assert!(matches!(sessions.publish_bundle(first), PublishStep::Discard));
    assert!(matches!(sessions.publish_bundle(second + 1), PublishStep::Rename));
}

#[test]
fn the_last_known_field_of_an_event_wins() {
    let first = field(1, 0x4010);
    let second = field(1, 0x4020);
    let unknown = field(9, 1);
    let joined = |parts: [&[u8]; 2]| parse_event(&parts.concat());
    assert!(matches!(joined([&first, &second]), Ok(Event::InstructionAddr(0x4020))));
    assert!(matches!(joined([&first, &unknown]), Ok(Event::InstructionAddr(0x4010))));
    assert!(matches!(joined([&unknown, &unknown]), Ok(Event::Unknown)));
    assert!(matches!(parse_event(&[]), Ok(Event::Unknown)));
}

#[test]
fn readers_leave_the_cursor_where_they_stopped() {
    let mut cursor = 9;
    assert_eq!(read_varint(&mut cursor, &[1, 2]).unwrap_err(), "truncated varint");
    assert_eq!(cursor, 9);
    let mut cursor = 0;
    assert_eq!(read_varint(&mut cursor, &[0x80, 0x80]).unwrap_err(), "truncated varint");
    assert_eq!(cursor, 2);
    let mut cursor = 1;
    assert_eq!(read_varint(&mut cursor, &[0x80; 12]).unwrap_err(), "varint is too long");
    assert_eq!(cursor, 11);
    let mut cursor = 0;
    assert_eq!(read_len(&mut cursor, &[5, 1]).unwrap_err(), "truncated length-delimited field");
    assert_eq!(cursor, 1);
    let mut cursor = 1;
    assert_eq!(skip_field(1, &mut cursor, &[0; 4]).unwrap_err(), "truncated fixed64 field");
    assert_eq!(cursor, 9);
    assert!(skip_field(7, &mut cursor, &[0; 4]).is_err());
    assert_eq!(cursor, 9);
}
