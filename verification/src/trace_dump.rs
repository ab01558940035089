//! Printing trace bundles.

use crate::text::{
    chars_of, numeral, numerals_spell_their_values, parsed_u64, push_numeral, push_zero_padded,
    same_text, spells, zero_padded,
};
use crate::trace_bundle::{
    bundle_events, event_views, optional_text, read_bundle, BundleEvents, DynamicExecChunk, Event,
    EventView, ExternalReturn, MemAccess, TraceBundleMetadata, TraceContext,
};
use vstd::prelude::*;
use vstd::string::*;

verus! {

/// What `ParseIntError` says of some text that is read as a number of so many bits, by
/// name.
pub uninterp spec fn parse_error_text(text: Seq<char>, bits: u32) -> Seq<char>;

/// `str::parse` as `usize` accepts decimal digits behind an optional plus sign, if the
/// number fits. Otherwise its error's text depends on the text and on the width of `usize`
/// alone; what it says is not stated.
#[verifier::external_body]
fn parse_usize(text: &str) -> (result: Result<usize, String>)
    ensures
        result matches Ok(value) ==> parsed_u64(text@, 10) == Some(value as nat),
        result matches Err(message) ==> (parsed_u64(text@, 10) is None || parsed_u64(text@, 10)->0
            > usize::MAX) && message@ == parse_error_text(text@, usize::BITS),
{
    text.parse::<usize>().map_err(|error| error.to_string())
}

/// What to print.
#[derive(Debug)]
pub struct Options {
    pub input: String,
    pub limit: Option<usize>,
    pub summary_only: bool,
}

/// What [`Options`] hold.
#[verifier::ext_equal]
pub struct OptionsView {
    pub input: Seq<char>,
    pub limit: Option<usize>,
    pub summary_only: bool,
}

impl Options {
    pub open spec fn view(&self) -> OptionsView {
        OptionsView {
            input: self.input@,
            limit: self.limit,
            summary_only: self.summary_only,
        }
    }
}

/// How the program is called.
pub open spec fn usage_text(program: Seq<char>) -> Seq<char> {
    "usage: "@ + program + " [--limit N] [--summary-only] <trace_bundle.pb>"@
}

/// How the program is called.
pub fn usage(program: &str) -> (text: String)
    ensures
        text@ == usage_text(program@),
{
    let mut text: String = String::from_str("usage: ");
    text.append(program);
    text.append(" [--limit N] [--summary-only] <trace_bundle.pb>");
    text
}

/// The arguments as characters.
pub open spec fn argument_texts(args: Seq<String>) -> Seq<Seq<char>> {
    Seq::new(args.len(), |i: int| args[i]@)
}

/// The options in the arguments from a position on, on top of those read already.
pub open spec fn options_from(
    program: Seq<char>,
    args: Seq<Seq<char>>,
    pos: int,
    options: OptionsView,
) -> Result<OptionsView, Seq<char>>
    decreases args.len() - pos,
{
    if pos < 0 || pos >= args.len() {
        if options.input.len() == 0 {
            Err(usage_text(program))
        } else {
            Ok(options)
        }
    } else {
        let arg = args[pos];
        if arg == "--help"@ || arg == "-h"@ {
            Err(usage_text(program))
        } else if arg == "--summary-only"@ {
            options_from(
                program,
                args,
                pos + 1,
                OptionsView { summary_only: true, ..options },
            )
        } else if arg == "--limit"@ {
            if pos + 1 >= args.len() {
                Err("--limit requires a value\n"@ + usage_text(program))
            } else {
                let value = args[pos + 1];
                match parsed_u64(value, 10) {
                    Some(limit) if limit <= usize::MAX => options_from(
                        program,
                        args,
                        pos + 2,
                        OptionsView { limit: Some(limit as usize), ..options },
                    ),
                    _ => Err(
                        "invalid --limit value "@ + value + ": "@ + parse_error_text(value, usize::BITS),
                    ),
                }
            }
        } else if arg.len() > 0 && arg[0] == '-' {
            Err("unknown option "@ + arg + "\n"@ + usage_text(program))
        } else if options.input.len() != 0 {
            Err("multiple input files provided\n"@ + usage_text(program))
        } else {
            options_from(program, args, pos + 1, OptionsView { input: arg, ..options })
        }
    }
}

/// No options yet.
pub open spec fn no_options() -> OptionsView {
    OptionsView { input: Seq::empty(), limit: None, summary_only: false }
}

/// Reads the arguments of the program, the first of which is its name.
pub fn parse_args(args: &[String]) -> (result: Result<Options, String>)
    requires
        args@.len() > 0,
    ensures
        match (
            result,
            options_from(
                args@[0]@,
                argument_texts(args@).drop_first(),
                0,
                no_options(),
            ),
        ) {
            (Ok(options), Ok(expected)) => options@ == expected,
            (Err(message), Err(expected)) => message@ == expected,
            _ => false,
        },
{
    let program: &String = &args[0];
    let ghost texts = argument_texts(args@).drop_first();
    let mut options: Options = Options { input: String::new(), limit: None, summary_only: false };
    assert(options@ =~= no_options());
    let mut index: usize = 1;
    while index < args.len()
        invariant
            1 <= index <= args@.len(),
            *program == args@[0],
            texts == argument_texts(args@).drop_first(),
            options_from(program@, texts, 0, no_options()) == options_from(
                program@,
                texts,
                index - 1,
                options@,
            ),
        decreases args@.len() - index,
    {
        let ghost before = options@;
        let arg: &String = &args[index];
        assert(texts[index - 1] == arg@);
        if same_text(arg.as_str(), "--help") || same_text(arg.as_str(), "-h") {
            return Err(usage(program.as_str()));
        }
        if same_text(arg.as_str(), "--summary-only") {
            options.summary_only = true;
            assert(options@ =~= OptionsView { summary_only: true, ..before });
            index = index + 1;
        } else if same_text(arg.as_str(), "--limit") {
            if args.len() - index <= 1 {
                let mut message: String = String::from_str("--limit requires a value\n");
                message.append(usage(program.as_str()).as_str());
                return Err(message);
            }
            let value: &String = &args[index + 1];
            assert(texts[index as int] == value@);
            match parse_usize(value.as_str()) {
                Ok(limit) => {
                    options.limit = Some(limit);
                    assert(options@ =~= OptionsView { limit: Some(limit), ..before });
                },
                Err(error) => {
                    let mut message: String = String::from_str("invalid --limit value ");
                    message.append(value.as_str());
                    message.append(": ");
                    message.append(error.as_str());
                    return Err(message);
                },
            }
            index = index + 2;
        } else {
            let chars: Vec<char> = chars_of(arg.as_str());
            if chars.len() > 0 && chars[0] == '-' {
                let mut message: String = String::from_str("unknown option ");
                message.append(arg.as_str());
                message.append("\n");
                message.append(usage(program.as_str()).as_str());
                return Err(message);
            }
            if !options.input.as_str().is_empty() {
                let mut message: String = String::from_str("multiple input files provided\n");
                message.append(usage(program.as_str()).as_str());
                return Err(message);
            }
            options.input = arg.clone();
            assert(options@ =~= OptionsView { input: arg@, ..before });
            index = index + 1;
        }
    }
    if options.input.as_str().is_empty() {
        return Err(usage(program.as_str()));
    }
    Ok(options)
}

/// What is known of the traced module.
#[derive(Debug)]
pub struct TraceState {
    pub path: Option<String>,
    pub module_base: u64,
}

/// What a [`TraceState`] holds.
#[verifier::ext_equal]
pub struct TraceStateView {
    pub path: Option<Seq<char>>,
    pub module_base: u64,
}

impl TraceState {
    pub open spec fn view(&self) -> TraceStateView {
        TraceStateView { path: optional_text(self.path), module_base: self.module_base }
    }
}

/// How many events of each kind there were.
#[derive(Clone, Copy, Debug, PartialEq, Eq, Structural)]
pub struct Stats {
    pub total: usize,
    pub instructions: usize,
    pub mem_accesses: usize,
    pub external_returns: usize,
    pub dynamic_chunks: usize,
    pub contexts: usize,
    pub metadata: usize,
    pub unknown: usize,
}

/// No events yet.
pub open spec fn no_stats() -> Stats {
    Stats {
        total: 0,
        instructions: 0,
        mem_accesses: 0,
        external_returns: 0,
        dynamic_chunks: 0,
        contexts: 0,
        metadata: 0,
        unknown: 0,
    }
}

/// The statistics with one more event.
pub open spec fn counted(stats: Stats, event: EventView) -> Stats {
    let stats = Stats { total: (stats.total + 1) as usize, ..stats };
    match event {
        EventView::InstructionAddr(_) => Stats {
            instructions: (stats.instructions + 1) as usize,
            ..stats
        },
        EventView::MemAccess(_) => Stats {
            mem_accesses: (stats.mem_accesses + 1) as usize,
            ..stats
        },
        EventView::ExternalReturn(_) => Stats {
            external_returns: (stats.external_returns + 1) as usize,
            ..stats
        },
        EventView::DynamicExecChunk(_) => Stats {
            dynamic_chunks: (stats.dynamic_chunks + 1) as usize,
            ..stats
        },
        EventView::TraceContext(_) => Stats { contexts: (stats.contexts + 1) as usize, ..stats },
        EventView::TraceBundleMetadata(_) => Stats {
            metadata: (stats.metadata + 1) as usize,
            ..stats
        },
        EventView::Unknown => Stats { unknown: (stats.unknown + 1) as usize, ..stats },
    }
}

/// What is known of the module after one more event: metadata replaces it.
pub open spec fn updated(state: TraceStateView, event: EventView) -> TraceStateView {
    match event {
        EventView::TraceBundleMetadata(metadata) => TraceStateView {
            path: Some(metadata.path),
            module_base: metadata.module_base,
        },
        _ => state,
    }
}

/// The statistics of a row of events.
pub open spec fn stats_of(events: Seq<EventView>) -> Stats
    decreases events.len(),
{
    if events.len() == 0 {
        no_stats()
    } else {
        counted(stats_of(events.drop_last()), events.last())
    }
}

/// What is known of the module after a row of events.
pub open spec fn state_of(events: Seq<EventView>) -> TraceStateView
    decreases events.len(),
{
    if events.len() == 0 {
        TraceStateView { path: None, module_base: 0 }
    } else {
        updated(state_of(events.drop_last()), events.last())
    }
}

/// Every event is counted once, under its kind.
pub proof fn kinds_add_up(events: Seq<EventView>)
    requires
        events.len() <= usize::MAX,
    ensures
        stats_of(events).total == events.len(),
        stats_of(events).instructions + stats_of(events).mem_accesses + stats_of(
            events,
        ).external_returns + stats_of(events).dynamic_chunks + stats_of(events).contexts + stats_of(
            events,
        ).metadata + stats_of(events).unknown == events.len(),
    decreases events.len(),
{
    if events.len() > 0 {
        kinds_add_up(events.drop_last());
    }
}

/// An address with sixteen digits, and its distance from the module's base if it is not
/// below it.
pub open spec fn addr_text(addr: u64, base: u64) -> Seq<char> {
    let text = "0x"@ + zero_padded(numeral(addr as nat, 16), 16);
    if base != 0 && addr >= base {
        text + " (module+0x"@ + numeral((addr - base) as nat, 16) + ")"@
    } else {
        text
    }
}

fn push_wide_hex(out: &mut String, value: u64)
    ensures
        final(out)@ == old(out)@ + ("0x"@ + zero_padded(numeral(value as nat, 16), 16)),
{
    out.append("0x");
    push_zero_padded(out, value, 16, 16);
    assert(out@ =~= old(out)@ + ("0x"@ + zero_padded(numeral(value as nat, 16), 16)));
}

fn push_hex(out: &mut String, value: u64)
    ensures
        final(out)@ == old(out)@ + ("0x"@ + numeral(value as nat, 16)),
{
    out.append("0x");
    push_numeral(out, value, 16);
    assert(out@ =~= old(out)@ + ("0x"@ + numeral(value as nat, 16)));
}

/// An address relative to the module.
pub fn format_addr(addr: u64, state: &TraceState) -> (text: String)
    ensures
        text@ == addr_text(addr, state.module_base),
{
    let mut text: String = String::new();
    push_wide_hex(&mut text, addr);
    assert(text@ =~= "0x"@ + zero_padded(numeral(addr as nat, 16), 16));
    if state.module_base != 0 && addr >= state.module_base {
        text.append(" (module+0x");
        push_numeral(&mut text, addr - state.module_base, 16);
        text.append(")");
    }
    text
}

/// A register of a context, or zero where the trace has none.
pub open spec fn register_value(x: Seq<u64>, index: int) -> u64 {
    if index < x.len() {
        x[index]
    } else {
        0
    }
}

/// The first `count` registers.
pub open spec fn low_regs_text(x: Seq<u64>, count: nat) -> Seq<char>
    decreases count,
{
    if count == 0 {
        Seq::empty()
    } else {
        let index = (count - 1) as nat;
        low_regs_text(x, index) + " x"@ + numeral(index, 10) + "="@ + ("0x"@ + numeral(
            register_value(x, index as int) as nat,
            16,
        ))
    }
}

/// The first eight registers and the link register.
pub fn low_regs(context: &TraceContext) -> (text: String)
    ensures
        text@ == low_regs_text(context.x@, 8) + " lr="@ + ("0x"@ + numeral(
            register_value(context.x@, 30) as nat,
            16,
        )),
{
    let mut text: String = String::new();
    let mut index: usize = 0;
    while index < 8
        invariant
            index <= 8,
            text@ == low_regs_text(context.x@, index as nat),
        decreases 8 - index,
    {
        let value: u64 = if index < context.x.len() {
            context.x[index]
        } else {
            0
        };
        text.append(" x");
        push_numeral(&mut text, index as u64, 10);
        text.append("=");
        push_hex(&mut text, value);
        index = index + 1;
    }
    let lr: u64 = if context.x.len() > 30 {
        context.x[30]
    } else {
        0
    };
    text.append(" lr=");
    push_hex(&mut text, lr);
    text
}

/// The number of an event, with six digits.
pub open spec fn index_text(index: nat) -> Seq<char> {
    zero_padded(numeral(index, 10), 6)
}

/// A number with sixteen hexadecimal digits.
pub open spec fn wide_hex(value: u64) -> Seq<char> {
    "0x"@ + zero_padded(numeral(value as nat, 16), 16)
}

/// A hexadecimal number.
pub open spec fn short_hex(value: nat) -> Seq<char> {
    "0x"@ + numeral(value, 16)
}

/// The line for an event.
pub open spec fn event_line(index: nat, event: EventView, base: u64) -> Seq<char> {
    match event {
        EventView::InstructionAddr(addr) => index_text(index) + " inst pc="@ + addr_text(addr, base),
        EventView::MemAccess(mem) => index_text(index) + " mem  inst="@ + addr_text(
            mem.inst_addr,
            base,
        ) + " access="@ + wide_hex(mem.access_addr) + " size="@ + numeral(mem.size as nat, 10)
            + " value="@ + short_hex(mem.value as nat),
        EventView::ExternalReturn(ret) => index_text(index) + " ret  pc="@ + addr_text(
            ret.return_addr,
            base,
        ) + " x0="@ + short_hex(ret.return_value as nat),
        EventView::DynamicExecChunk(chunk) => index_text(index) + " dyn  range="@ + wide_hex(
            chunk.start_addr,
        ) + "-"@ + wide_hex(chunk.end_addr) + " perm="@ + short_hex(chunk.perm as nat)
            + " offset="@ + short_hex(chunk.chunk_offset as nat) + " data="@ + numeral(
            chunk.data_len,
            10,
        ) + " path="@ + chunk.path,
        EventView::TraceContext(context) => index_text(index) + " ctx  pc="@ + addr_text(
            context.pc,
            base,
        ) + " sp="@ + wide_hex(context.sp) + " nzcv="@ + short_hex(context.nzcv as nat)
            + " tpidr_el0="@ + short_hex(context.tpidr_el0 as nat) + " q_words="@ + numeral(
            context.q_words,
            10,
        ) + (low_regs_text(context.x, 8) + " lr="@ + short_hex(
            register_value(context.x, 30) as nat,
        )),
        EventView::TraceBundleMetadata(metadata) => index_text(index) + " meta module_base="@
            + wide_hex(metadata.module_base) + " module_path="@ + metadata.path,
        EventView::Unknown => index_text(index) + " unknown"@,
    }
}

/// Counts an event, notes what it says of the module, and gives its line.
pub fn format_event(index: usize, event: &Event, state: &mut TraceState, stats: &mut Stats) -> (line:
    String)
    requires
        old(stats).total < usize::MAX,
        old(stats).instructions < usize::MAX,
        old(stats).mem_accesses < usize::MAX,
        old(stats).external_returns < usize::MAX,
        old(stats).dynamic_chunks < usize::MAX,
        old(stats).contexts < usize::MAX,
        old(stats).metadata < usize::MAX,
        old(stats).unknown < usize::MAX,
    ensures
        line@ == event_line(index as nat, event@, old(state).module_base),
        *final(stats) == counted(*old(stats), event@),
        final(state)@ == updated(old(state)@, event@),
{
    stats.total = stats.total + 1;
    let mut line: String = String::new();
    push_zero_padded(&mut line, index as u64, 10, 6);
    assert(line@ =~= index_text(index as nat));
    match event {
        Event::InstructionAddr(addr) => {
            stats.instructions = stats.instructions + 1;
            line.append(" inst pc=");
            line.append(format_addr(*addr, state).as_str());
        },
        Event::MemAccess(mem) => {
            stats.mem_accesses = stats.mem_accesses + 1;
            line.append(" mem  inst=");
            line.append(format_addr(mem.inst_addr, state).as_str());
            line.append(" access=");
            push_wide_hex(&mut line, mem.access_addr);
            line.append(" size=");
            push_numeral(&mut line, mem.size as u64, 10);
            line.append(" value=");
            push_hex(&mut line, mem.value);
        },
        Event::ExternalReturn(ret) => {
            stats.external_returns = stats.external_returns + 1;
            line.append(" ret  pc=");
            line.append(format_addr(ret.return_addr, state).as_str());
            line.append(" x0=");
            push_hex(&mut line, ret.return_value);
        },
        Event::DynamicExecChunk(chunk) => {
            stats.dynamic_chunks = stats.dynamic_chunks + 1;
            line.append(" dyn  range=");
            push_wide_hex(&mut line, chunk.start_addr);
            line.append("-");
            push_wide_hex(&mut line, chunk.end_addr);
            line.append(" perm=");
            push_hex(&mut line, chunk.perm as u64);
            line.append(" offset=");
            push_hex(&mut line, chunk.chunk_offset);
            line.append(" data=");
            push_numeral(&mut line, chunk.data_len as u64, 10);
            line.append(" path=");
            line.append(chunk.path.as_str());
        },
        Event::TraceContext(context) => {
            stats.contexts = stats.contexts + 1;
            line.append(" ctx  pc=");
            line.append(format_addr(context.pc, state).as_str());
            line.append(" sp=");
            push_wide_hex(&mut line, context.sp);
            line.append(" nzcv=");
            push_hex(&mut line, context.nzcv);
            line.append(" tpidr_el0=");
            push_hex(&mut line, context.tpidr_el0);
            line.append(" q_words=");
            push_numeral(&mut line, context.q_words as u64, 10);
            line.append(low_regs(context).as_str());
        },
        Event::TraceBundleMetadata(metadata) => {
            stats.metadata = stats.metadata + 1;
            state.path = Some(metadata.path.clone());
            state.module_base = metadata.module_base;
            assert(state@ =~= updated(old(state)@, event@));
            line.append(" meta module_base=");
            push_wide_hex(&mut line, metadata.module_base);
            line.append(" module_path=");
            line.append(metadata.path.as_str());
        },
        Event::Unknown => {
            stats.unknown = stats.unknown + 1;
            line.append(" unknown");
        },
    }
    line
}

/// The first bytes of a trace bundle.
pub open spec fn bundle_magic() -> Seq<u8> {
    seq![0x54u8, 0x52u8, 0x42u8, 0x31u8]
}

/// Whether some bytes begin like a trace bundle.
pub open spec fn is_bundle(data: Seq<u8>) -> bool {
    data.len() >= 4 && data.take(4) == bundle_magic()
}

/// Whether some bytes begin like a trace bundle.
pub fn has_magic(data: &[u8]) -> (found: bool)
    ensures
        found == is_bundle(data@),
{
    if data.len() < 4 {
        return false;
    }
    let found: bool = data[0] == 0x54 && data[1] == 0x52 && data[2] == 0x42 && data[3] == 0x31;
    proof {
        let front = data@.take(4);
        if found {
            assert(front =~= bundle_magic());
        } else if front == bundle_magic() {
            assert(front[0] == data@[0] && front[1] == data@[1] && front[2] == data@[2] && front[3]
                == data@[3]);
            assert(false);
        }
    }
    found
}

/// The lines of a row of events.
pub open spec fn event_lines(events: Seq<EventView>) -> Seq<Seq<char>> {
    Seq::new(
        events.len(),
        |i: int| event_line(i as nat, events[i], state_of(events.take(i)).module_base),
    )
}

/// The lines of a text.
pub open spec fn line_views(lines: Seq<String>) -> Seq<Seq<char>> {
    Seq::new(lines.len(), |i: int| lines[i]@)
}

/// The lines that are printed: none for a summary, and no more than the limit.
pub open spec fn printed_lines(events: Seq<EventView>, options: OptionsView) -> Seq<Seq<char>> {
    if options.summary_only {
        Seq::empty()
    } else {
        match options.limit {
            Some(limit) if limit < events.len() => event_lines(events).take(limit as int),
            _ => event_lines(events),
        }
    }
}

/// The summary.
pub open spec fn summary_lines(stats: Stats, state: TraceStateView, bytes: nat) -> Seq<Seq<char>> {
    let counts = seq![
        "summary:"@,
        "  bytes="@ + numeral(bytes, 10),
        "  events="@ + numeral(stats.total as nat, 10),
        "  metadata="@ + numeral(stats.metadata as nat, 10),
        "  contexts="@ + numeral(stats.contexts as nat, 10),
        "  instructions="@ + numeral(stats.instructions as nat, 10),
        "  mem_accesses="@ + numeral(stats.mem_accesses as nat, 10),
        "  external_returns="@ + numeral(stats.external_returns as nat, 10),
        "  dynamic_chunks="@ + numeral(stats.dynamic_chunks as nat, 10),
        "  unknown="@ + numeral(stats.unknown as nat, 10),
    ];
    if state.module_base != 0 || state.path is Some {
        counts.push(
            "  module="@ + wide_hex(state.module_base) + " "@ + match state.path {
                Some(path) => path,
                None => Seq::empty(),
            },
        )
    } else {
        counts
    }
}

/// The line that says that events were left out.
pub open spec fn truncation_lines(events: Seq<EventView>, options: OptionsView) -> Seq<Seq<char>> {
    match options.limit {
        Some(limit) if !options.summary_only && limit < events.len() => seq![
            "... truncated event output at --limit "@ + numeral(limit as nat, 10),
        ],
        _ => Seq::empty(),
    }
}

/// What is printed for a bundle: its name, the events, and a summary unless an event
/// could not be read.
pub open spec fn dump_lines(options: OptionsView, data: Seq<u8>) -> Seq<Seq<char>> {
    let (events, error) = bundle_events(data, 4, Seq::empty());
    let front = seq!["trace_bundle="@ + options.input] + printed_lines(events, options);
    if error is Some {
        front
    } else {
        front + truncation_lines(events, options) + summary_lines(
            stats_of(events),
            state_of(events),
            data.len(),
        )
    }
}

/// Whether a text is an address: sixteen hexadecimal digits behind `0x` and, if the
/// module's base is known and not above the address, how far it lies behind that base.
pub open spec fn is_address(text: Seq<char>, addr: u64, base: u64) -> bool {
    if base == 0 || addr < base {
        exists|digits: Seq<char>|
            #![trigger spells(digits, addr as nat, 16, 16)]
            spells(digits, addr as nat, 16, 16) && text == "0x"@ + digits
    } else {
        exists|digits: Seq<char>, distance: Seq<char>|
            #![trigger spells(digits, addr as nat, 16, 16), spells(
                distance,
                (addr - base) as nat,
                16,
                1,
            )]
            spells(digits, addr as nat, 16, 16) && spells(distance, (addr - base) as nat, 16, 1)
                && text == "0x"@ + digits + " (module+0x"@ + distance + ")"@
    }
}

/// An address is shown with its distance from the module's base, if it is not below it.
pub proof fn addresses_show_their_distance(addr: u64, base: u64)
    ensures
        is_address(addr_text(addr, base), addr, base),
{
    numerals_spell_their_values(addr as nat, 16, 16);
    if base != 0 && addr >= base {
        numerals_spell_their_values((addr - base) as nat, 16, 1);
    }
}

/// The line of an instruction shows its number and, behind `pc=`, its address.
pub proof fn instruction_lines_show_their_address(index: nat, addr: u64, base: u64) -> (parts: (
    Seq<char>,
    Seq<char>,
))
    ensures
        event_line(index, Event::InstructionAddr(addr)@, base) == parts.0 + " inst pc="@ + parts.1,
        spells(parts.0, index, 10, 6),
        is_address(parts.1, addr, base),
{
    numerals_spell_their_values(index, 10, 6);
    addresses_show_their_distance(addr, base);
    (index_text(index), addr_text(addr, base))
}

/// The line of a memory access shows, behind their labels, the address of the instruction,
/// the address that it accessed, how many bytes, and their value.
pub proof fn access_lines_show_their_fields(index: nat, mem: MemAccess, base: u64) -> (parts: (
    Seq<char>,
    Seq<char>,
    Seq<char>,
    Seq<char>,
    Seq<char>,
))
    ensures
        event_line(index, Event::MemAccess(mem)@, base) == parts.0 + " mem  inst="@ + parts.1
            + " access=0x"@ + parts.2 + " size="@ + parts.3 + " value=0x"@ + parts.4,
        spells(parts.0, index, 10, 6),
        is_address(parts.1, mem.inst_addr, base),
        spells(parts.2, mem.access_addr as nat, 16, 16),
        spells(parts.3, mem.size as nat, 10, 1),
        spells(parts.4, mem.value as nat, 16, 1),
{
    numerals_spell_their_values(index, 10, 6);
    addresses_show_their_distance(mem.inst_addr, base);
    numerals_spell_their_values(mem.access_addr as nat, 16, 16);
    numerals_spell_their_values(mem.size as nat, 10, 1);
    numerals_spell_their_values(mem.value as nat, 16, 1);
    let inst = addr_text(mem.inst_addr, base);
    let access = zero_padded(numeral(mem.access_addr as nat, 16), 16);
    let size = numeral(mem.size as nat, 10);
    let value = numeral(mem.value as nat, 16);
    reveal_strlit("0x");
    reveal_strlit(" access=");
    reveal_strlit(" access=0x");
    reveal_strlit(" value=");
    reveal_strlit(" value=0x");
    assert(" access="@ + "0x"@ =~= " access=0x"@);
    assert(" value="@ + "0x"@ =~= " value=0x"@);
    let line = event_line(index, Event::MemAccess(mem)@, base);
    assert(line =~= index_text(index) + " mem  inst="@ + inst + (" access="@ + "0x"@) + access
        + " size="@ + size + (" value="@ + "0x"@) + value);
    (index_text(index), inst, access, size, value)
}

/// The line of an external return shows the address that it returned to behind `pc=`, and
/// the value that it returned behind `x0=`.
pub proof fn return_lines_show_their_fields(index: nat, ret: ExternalReturn, base: u64) -> (parts: (
    Seq<char>,
    Seq<char>,
    Seq<char>,
))
    ensures
        event_line(index, Event::ExternalReturn(ret)@, base) == parts.0 + " ret  pc="@ + parts.1
            + " x0=0x"@ + parts.2,
        spells(parts.0, index, 10, 6),
        is_address(parts.1, ret.return_addr, base),
        spells(parts.2, ret.return_value as nat, 16, 1),
{
    numerals_spell_their_values(index, 10, 6);
    addresses_show_their_distance(ret.return_addr, base);
    numerals_spell_their_values(ret.return_value as nat, 16, 1);
    let pc = addr_text(ret.return_addr, base);
    let value = numeral(ret.return_value as nat, 16);
    reveal_strlit("0x");
    reveal_strlit(" x0=");
    reveal_strlit(" x0=0x");
    assert(" x0="@ + "0x"@ =~= " x0=0x"@);
    let line = event_line(index, Event::ExternalReturn(ret)@, base);
    assert(line =~= index_text(index) + " ret  pc="@ + pc + (" x0="@ + "0x"@) + value);
    (index_text(index), pc, value)
}

proof fn lemma_marked(front: Seq<char>, label: Seq<char>, digits: Seq<char>, marked: Seq<char>)
    requires
        label + "0x"@ == marked,
    ensures
        front + label + ("0x"@ + digits) == front + marked + digits,
{
    assert(front + label + ("0x"@ + digits) =~= front + (label + "0x"@) + digits);
}

/// The line of a piece of code that was made at run time shows, behind their labels, where
/// it begins and ends, its permissions, its offset, how many bytes there are of it, and its
/// path.
pub proof fn chunk_lines_show_their_fields(index: nat, chunk: DynamicExecChunk, base: u64) -> (
    parts: (Seq<char>, Seq<char>, Seq<char>, Seq<char>, Seq<char>, Seq<char>))
    ensures
        event_line(index, Event::DynamicExecChunk(chunk)@, base) == parts.0 + " dyn  range=0x"@
            + parts.1 + "-0x"@ + parts.2 + " perm=0x"@ + parts.3 + " offset=0x"@ + parts.4
            + " data="@ + parts.5 + " path="@ + chunk.path@,
        spells(parts.0, index, 10, 6),
        spells(parts.1, chunk.start_addr as nat, 16, 16),
        spells(parts.2, chunk.end_addr as nat, 16, 16),
        spells(parts.3, chunk.perm as nat, 16, 1),
        spells(parts.4, chunk.chunk_offset as nat, 16, 1),
        spells(parts.5, chunk.data_len as nat, 10, 1),
{
    numerals_spell_their_values(index, 10, 6);
    numerals_spell_their_values(chunk.start_addr as nat, 16, 16);
    numerals_spell_their_values(chunk.end_addr as nat, 16, 16);
    numerals_spell_their_values(chunk.perm as nat, 16, 1);
    numerals_spell_their_values(chunk.chunk_offset as nat, 16, 1);
    numerals_spell_their_values(chunk.data_len as nat, 10, 1);
    let start = zero_padded(numeral(chunk.start_addr as nat, 16), 16);
    let end = zero_padded(numeral(chunk.end_addr as nat, 16), 16);
    let perm = numeral(chunk.perm as nat, 16);
    let offset = numeral(chunk.chunk_offset as nat, 16);
    let length = numeral(chunk.data_len as nat, 10);
    reveal_strlit("0x");
    reveal_strlit(" dyn  range=");
    reveal_strlit(" dyn  range=0x");
    reveal_strlit("-");
    reveal_strlit("-0x");
    reveal_strlit(" perm=");
    reveal_strlit(" perm=0x");
    reveal_strlit(" offset=");
    reveal_strlit(" offset=0x");
    assert(" dyn  range="@ + "0x"@ =~= " dyn  range=0x"@);
    assert("-"@ + "0x"@ =~= "-0x"@);
    assert(" perm="@ + "0x"@ =~= " perm=0x"@);
    assert(" offset="@ + "0x"@ =~= " offset=0x"@);
    lemma_marked(index_text(index), " dyn  range="@, start, " dyn  range=0x"@);
    let first = index_text(index) + " dyn  range=0x"@ + start;
    lemma_marked(first, "-"@, end, "-0x"@);
    let second = first + "-0x"@ + end;
    lemma_marked(second, " perm="@, perm, " perm=0x"@);
    let third = second + " perm=0x"@ + perm;
    lemma_marked(third, " offset="@, offset, " offset=0x"@);
    (index_text(index), start, end, perm, offset, length)
}

/// The line of a context shows, behind their labels, the program counter, the stack
/// pointer, the flags, the thread register, how many vector words there are, the first
/// eight registers and the link register; a register that the trace lacks shows as zero.
pub proof fn context_lines_show_their_fields(index: nat, context: TraceContext, base: u64) -> (
    parts: (Seq<char>, Seq<char>, Seq<char>, Seq<char>, Seq<char>, Seq<char>, Seq<Seq<char>>))
    ensures
        event_line(index, Event::TraceContext(context)@, base) == parts.0 + " ctx  pc="@ + parts.1
            + " sp=0x"@ + parts.2 + " nzcv=0x"@ + parts.3 + " tpidr_el0=0x"@ + parts.4
            + " q_words="@ + parts.5 + (" x0=0x"@ + parts.6[0] + " x1=0x"@ + parts.6[1] + " x2=0x"@
            + parts.6[2] + " x3=0x"@ + parts.6[3] + " x4=0x"@ + parts.6[4] + " x5=0x"@ + parts.6[5]
            + " x6=0x"@ + parts.6[6] + " x7=0x"@ + parts.6[7] + " lr=0x"@ + parts.6[30]),
        spells(parts.0, index, 10, 6),
        is_address(parts.1, context.pc, base),
        spells(parts.2, context.sp as nat, 16, 16),
        spells(parts.3, context.nzcv as nat, 16, 1),
        spells(parts.4, context.tpidr_el0 as nat, 16, 1),
        spells(parts.5, context.q_words as nat, 10, 1),
        forall|i: int|
            0 <= i <= 30 ==> spells(
                #[trigger] parts.6[i],
                if i < context.x@.len() {
                    context.x@[i] as nat
                } else {
                    0
                },
                16,
                1,
            ),
{
    numerals_spell_their_values(index, 10, 6);
    addresses_show_their_distance(context.pc, base);
    numerals_spell_their_values(context.sp as nat, 16, 16);
    numerals_spell_their_values(context.nzcv as nat, 16, 1);
    numerals_spell_their_values(context.tpidr_el0 as nat, 16, 1);
    numerals_spell_their_values(context.q_words as nat, 10, 1);
    let pc = addr_text(context.pc, base);
    let sp = zero_padded(numeral(context.sp as nat, 16), 16);
    let nzcv = numeral(context.nzcv as nat, 16);
    let tpidr = numeral(context.tpidr_el0 as nat, 16);
    let words = numeral(context.q_words as nat, 10);
    let regs = Seq::new(31, |i: int| numeral(register_value(context.x@, i) as nat, 16));
    assert forall|i: int| 0 <= i <= 30 implies spells(
        #[trigger] regs[i],
        if i < context.x@.len() {
            context.x@[i] as nat
        } else {
            0
        },
        16,
        1,
    ) by {
        numerals_spell_their_values(register_value(context.x@, i) as nat, 16, 1);
    }
    lemma_register_texts(context.x@, regs);
    reveal_strlit("0x");
    reveal_strlit(" sp=");
    reveal_strlit(" sp=0x");
    reveal_strlit(" nzcv=");
    reveal_strlit(" nzcv=0x");
    reveal_strlit(" tpidr_el0=");
    reveal_strlit(" tpidr_el0=0x");
    assert(" sp="@ + "0x"@ =~= " sp=0x"@);
    assert(" nzcv="@ + "0x"@ =~= " nzcv=0x"@);
    assert(" tpidr_el0="@ + "0x"@ =~= " tpidr_el0=0x"@);
    let first = index_text(index) + " ctx  pc="@ + pc;
    lemma_marked(first, " sp="@, sp, " sp=0x"@);
    let second = first + " sp=0x"@ + sp;
    lemma_marked(second, " nzcv="@, nzcv, " nzcv=0x"@);
    let third = second + " nzcv=0x"@ + nzcv;
    lemma_marked(third, " tpidr_el0="@, tpidr, " tpidr_el0=0x"@);
    let low = low_regs_text(context.x@, 8) + " lr="@ + short_hex(
        register_value(context.x@, 30) as nat,
    );
    let line = event_line(index, Event::TraceContext(context)@, base);
    assert(line == third + " tpidr_el0=0x"@ + tpidr + " q_words="@ + words + low);
    (index_text(index), pc, sp, nzcv, tpidr, words, regs)
}

proof fn lemma_register_texts(x: Seq<u64>, regs: Seq<Seq<char>>)
    requires
        regs.len() == 31,
        forall|i: int|
            0 <= i <= 30 ==> #[trigger] regs[i] == numeral(register_value(x, i) as nat, 16),
    ensures
        low_regs_text(x, 8) + " lr="@ + short_hex(register_value(x, 30) as nat) == " x0=0x"@
            + regs[0] + " x1=0x"@ + regs[1] + " x2=0x"@ + regs[2] + " x3=0x"@ + regs[3] + " x4=0x"@
            + regs[4] + " x5=0x"@ + regs[5] + " x6=0x"@ + regs[6] + " x7=0x"@ + regs[7] + " lr=0x"@
            + regs[30],
{
    reveal_strlit("0x");
    reveal_strlit(" x");
    reveal_strlit("=");
    reveal_strlit(" lr=");
    reveal_strlit(" lr=0x");
    reveal_strlit(" x0=0x");
    reveal_strlit(" x1=0x");
    reveal_strlit(" x2=0x");
    reveal_strlit(" x3=0x");
    reveal_strlit(" x4=0x");
    reveal_strlit(" x5=0x");
    reveal_strlit(" x6=0x");
    reveal_strlit(" x7=0x");
    let none = low_regs_text(x, 0);
    lemma_register_text(x, 0, regs[0], " x0=0x"@);
    assert(none + (" x0=0x"@ + regs[0]) =~= " x0=0x"@ + regs[0]);
    lemma_register_text(x, 1, regs[1], " x1=0x"@);
    lemma_register_text(x, 2, regs[2], " x2=0x"@);
    lemma_register_text(x, 3, regs[3], " x3=0x"@);
    lemma_register_text(x, 4, regs[4], " x4=0x"@);
    lemma_register_text(x, 5, regs[5], " x5=0x"@);
    lemma_register_text(x, 6, regs[6], " x6=0x"@);
    lemma_register_text(x, 7, regs[7], " x7=0x"@);
    let all = low_regs_text(x, 8);
    assert(" lr="@ + "0x"@ =~= " lr=0x"@);
    assert(all + " lr="@ + short_hex(register_value(x, 30) as nat) =~= all + (" lr="@ + "0x"@)
        + regs[30]);
    let a1 = " x0=0x"@ + regs[0];
    let a2 = a1 + " x1=0x"@ + regs[1];
    assert(low_regs_text(x, 2) =~= a2);
    let a3 = a2 + " x2=0x"@ + regs[2];
    assert(low_regs_text(x, 3) =~= a3);
    let a4 = a3 + " x3=0x"@ + regs[3];
    assert(low_regs_text(x, 4) =~= a4);
    let a5 = a4 + " x4=0x"@ + regs[4];
    assert(low_regs_text(x, 5) =~= a5);
    let a6 = a5 + " x5=0x"@ + regs[5];
    assert(low_regs_text(x, 6) =~= a6);
    let a7 = a6 + " x6=0x"@ + regs[6];
    assert(low_regs_text(x, 7) =~= a7);
    let a8 = a7 + " x7=0x"@ + regs[7];
    assert(low_regs_text(x, 8) =~= a8);
}

proof fn lemma_register_text(x: Seq<u64>, index: nat, reg: Seq<char>, label: Seq<char>)
    requires
        index < 10,
        reg == numeral(register_value(x, index as int) as nat, 16),
        label =~= seq![' ', 'x', ('0' as u32 + index) as char, '=', '0', 'x'],
    ensures
        low_regs_text(x, index + 1) == low_regs_text(x, index) + (label + reg),
{
    reveal_strlit("0x");
    reveal_strlit(" x");
    reveal_strlit("=");
    assert(numeral(index, 10) =~= seq![('0' as u32 + index) as char]);
    assert(label =~= " x"@ + numeral(index, 10) + "="@ + "0x"@);
    assert(low_regs_text(x, index + 1) =~= low_regs_text(x, index) + (label + reg));
}

/// The line of metadata shows the module's base and path, and that of an unknown event
/// only its number.
pub proof fn other_lines_show_their_fields(
    index: nat,
    metadata: TraceBundleMetadata,
    base: u64,
) -> (parts: (Seq<char>, Seq<char>))
    ensures
        event_line(index, Event::TraceBundleMetadata(metadata)@, base) == parts.0
            + " meta module_base=0x"@ + parts.1 + " module_path="@ + metadata.path@,
        event_line(index, Event::Unknown@, base) == parts.0 + " unknown"@,
        spells(parts.0, index, 10, 6),
        spells(parts.1, metadata.module_base as nat, 16, 16),
{
    numerals_spell_their_values(index, 10, 6);
    numerals_spell_their_values(metadata.module_base as nat, 16, 16);
    let shown = zero_padded(numeral(metadata.module_base as nat, 16), 16);
    reveal_strlit("0x");
    reveal_strlit(" meta module_base=");
    reveal_strlit(" meta module_base=0x");
    assert(" meta module_base="@ + "0x"@ =~= " meta module_base=0x"@);
    let line = event_line(index, Event::TraceBundleMetadata(metadata)@, base);
    assert(line =~= index_text(index) + (" meta module_base="@ + "0x"@) + shown + " module_path="@
        + metadata.path@);
    (index_text(index), shown)
}

/// Each count is the number of events of its kind.
pub proof fn counts_are_numbers_of_events(events: Seq<EventView>)
    requires
        events.len() <= usize::MAX,
    ensures
        stats_of(events).total == events.len(),
        stats_of(events).instructions == events.filter(
            |e: EventView| e is InstructionAddr,
        ).len(),
        stats_of(events).mem_accesses == events.filter(|e: EventView| e is MemAccess).len(),
        stats_of(events).external_returns == events.filter(
            |e: EventView| e is ExternalReturn,
        ).len(),
        stats_of(events).dynamic_chunks == events.filter(
            |e: EventView| e is DynamicExecChunk,
        ).len(),
        stats_of(events).contexts == events.filter(|e: EventView| e is TraceContext).len(),
        stats_of(events).metadata == events.filter(|e: EventView| e is TraceBundleMetadata).len(),
        stats_of(events).unknown == events.filter(|e: EventView| e is Unknown).len(),
    decreases events.len(),
{
    reveal(Seq::filter);
    kinds_add_up(events);
    if events.len() > 0 {
        counts_are_numbers_of_events(events.drop_last());
        kinds_add_up(events.drop_last());
    }
}

/// What is known of the module is what the last metadata says, and nothing before there
/// was any.
pub proof fn last_metadata_holds(events: Seq<EventView>)
    ensures
        (forall|i: int| 0 <= i < events.len() ==> !(#[trigger] events[i] is TraceBundleMetadata))
            ==> state_of(events).path is None && state_of(events).module_base == 0,
        forall|i: int|
            0 <= i < events.len() && (#[trigger] events[i]) is TraceBundleMetadata && (forall|k:
                int|
                i < k < events.len() ==> !(#[trigger] events[k] is TraceBundleMetadata))
                ==> state_of(events).path == Some(events[i]->TraceBundleMetadata_0.path)
                && state_of(events).module_base == events[i]->TraceBundleMetadata_0.module_base,
    decreases events.len(),
{
    if events.len() > 0 {
        let before = events.drop_last();
        last_metadata_holds(before);
        if !(events.last() is TraceBundleMetadata) {
            assert(forall|i: int| 0 <= i < before.len() ==> #[trigger] before[i] == events[i]);
            assert forall|i: int|
                0 <= i < events.len() && (#[trigger] events[i]) is TraceBundleMetadata && (forall|
                    k: int,
                |
                    i < k < events.len() ==> !(#[trigger] events[k] is TraceBundleMetadata)) implies state_of(
                events,
            ).path == Some(events[i]->TraceBundleMetadata_0.path) && state_of(events).module_base
                == events[i]->TraceBundleMetadata_0.module_base by {
                assert(i < before.len());
                assert(before[i] is TraceBundleMetadata);
                assert forall|k: int| i < k < before.len() implies !(#[trigger] before[k]
                    is TraceBundleMetadata) by {
                    assert(before[k] == events[k]);
                }
            }
            if forall|i: int|
                0 <= i < events.len() ==> !(#[trigger] events[i] is TraceBundleMetadata) {
                assert forall|i: int| 0 <= i < before.len() implies !(#[trigger] before[i]
                    is TraceBundleMetadata) by {
                    assert(before[i] == events[i]);
                }
            }
        }
    }
}

/// The summary shows each count behind its name, in a fixed order, and the module's base
/// and path if anything is known of it.
pub proof fn summaries_show_their_counts(stats: Stats, state: TraceStateView, bytes: nat) -> (
    parts: Seq<Seq<char>>)
    ensures
        summary_lines(stats, state, bytes).len() == if state.module_base != 0 || state.path is Some {
            11int
        } else {
            10int
        },
        summary_lines(stats, state, bytes)[0] == "summary:"@,
        summary_lines(stats, state, bytes)[1] == "  bytes="@ + parts[1],
        summary_lines(stats, state, bytes)[2] == "  events="@ + parts[2],
        summary_lines(stats, state, bytes)[3] == "  metadata="@ + parts[3],
        summary_lines(stats, state, bytes)[4] == "  contexts="@ + parts[4],
        summary_lines(stats, state, bytes)[5] == "  instructions="@ + parts[5],
        summary_lines(stats, state, bytes)[6] == "  mem_accesses="@ + parts[6],
        summary_lines(stats, state, bytes)[7] == "  external_returns="@ + parts[7],
        summary_lines(stats, state, bytes)[8] == "  dynamic_chunks="@ + parts[8],
        summary_lines(stats, state, bytes)[9] == "  unknown="@ + parts[9],
        spells(parts[1], bytes, 10, 1),
        spells(parts[2], stats.total as nat, 10, 1),
        spells(parts[3], stats.metadata as nat, 10, 1),
        spells(parts[4], stats.contexts as nat, 10, 1),
        spells(parts[5], stats.instructions as nat, 10, 1),
        spells(parts[6], stats.mem_accesses as nat, 10, 1),
        spells(parts[7], stats.external_returns as nat, 10, 1),
        spells(parts[8], stats.dynamic_chunks as nat, 10, 1),
        spells(parts[9], stats.unknown as nat, 10, 1),
        spells(parts[10], state.module_base as nat, 16, 16),
        state.path is Some ==> summary_lines(stats, state, bytes)[10] == "  module=0x"@ + parts[10]
            + " "@ + state.path->0,
        state.path is None && state.module_base != 0 ==> summary_lines(stats, state, bytes)[10]
            == "  module=0x"@ + parts[10] + " "@,
{
    numerals_spell_their_values(bytes, 10, 1);
    numerals_spell_their_values(stats.total as nat, 10, 1);
    numerals_spell_their_values(stats.metadata as nat, 10, 1);
    numerals_spell_their_values(stats.contexts as nat, 10, 1);
    numerals_spell_their_values(stats.instructions as nat, 10, 1);
    numerals_spell_their_values(stats.mem_accesses as nat, 10, 1);
    numerals_spell_their_values(stats.external_returns as nat, 10, 1);
    numerals_spell_their_values(stats.dynamic_chunks as nat, 10, 1);
    numerals_spell_their_values(stats.unknown as nat, 10, 1);
    numerals_spell_their_values(state.module_base as nat, 16, 16);
    let base = zero_padded(numeral(state.module_base as nat, 16), 16);
    let lines = summary_lines(stats, state, bytes);
    reveal_strlit("0x");
    reveal_strlit("  module=");
    reveal_strlit("  module=0x");
    assert("  module="@ + "0x"@ =~= "  module=0x"@);
    if state.path is Some {
        assert(lines[10] =~= ("  module="@ + "0x"@) + base + " "@ + state.path->0);
    } else if state.module_base != 0 {
        assert(lines[10] =~= ("  module="@ + "0x"@) + base + " "@);
    }
    seq![
        Seq::empty(),
        numeral(bytes, 10),
        numeral(stats.total as nat, 10),
        numeral(stats.metadata as nat, 10),
        numeral(stats.contexts as nat, 10),
        numeral(stats.instructions as nat, 10),
        numeral(stats.mem_accesses as nat, 10),
        numeral(stats.external_returns as nat, 10),
        numeral(stats.dynamic_chunks as nat, 10),
        numeral(stats.unknown as nat, 10),
        base,
    ]
}

/// A dump names the bundle first. Behind that stands one line for each event, in their
/// order, up to the limit and not for a summary alone; then, if the limit left events out,
/// a line that says so; and then the summary. Where an event could not be read, the lines
/// of those before it are the last.
pub proof fn dumps_show_events_up_to_the_limit(options: OptionsView, data: Seq<u8>, at: int)
    ensures
        ({
            let (events, error) = bundle_events(data, 4, Seq::empty());
            let lines = dump_lines(options, data);
            let shown: int = if options.summary_only {
                0
            } else if options.limit is Some && options.limit->0 < events.len() {
                options.limit->0 as int
            } else {
                events.len() as int
            };
            let cut = options.limit is Some && options.limit->0 < events.len()
                && !options.summary_only;
            let summary = summary_lines(stats_of(events), state_of(events), data.len());
            &&& lines.len() >= 1 + shown
            &&& lines[0] == "trace_bundle="@ + options.input
            &&& 0 <= at < shown ==> lines[1 + at] == event_line(
                at as nat,
                events[at],
                state_of(events.take(at)).module_base,
            )
            &&& error is Some ==> lines.len() == 1 + shown
            &&& error is None && !cut ==> lines.skip(1 + shown) == summary
            &&& error is None && cut ==> lines.skip(2 + shown) == summary && lines[1 + shown]
                == "... truncated event output at --limit "@ + numeral(
                options.limit->0 as nat,
                10,
            )
        }),
{
    let (events, error) = bundle_events(data, 4, Seq::empty());
    let lines = dump_lines(options, data);
    let shown = printed_lines(events, options);
    let summary = summary_lines(stats_of(events), state_of(events), data.len());
    let cut = truncation_lines(events, options);
    if error is None {
        assert(lines.skip((1 + shown.len() + cut.len()) as int) =~= summary);
    }
}

fn count_line(label: &str, count: usize) -> (line: String)
    ensures
        line@ == label@ + numeral(count as nat, 10),
{
    let mut line: String = String::from_str(label);
    push_numeral(&mut line, count as u64, 10);
    line
}

proof fn lemma_push_line(lines: Seq<String>, line: String)
    ensures
        line_views(lines.push(line)) == line_views(lines).push(line@),
{
    assert(line_views(lines.push(line)) =~= line_views(lines).push(line@));
}

fn push_line(lines: &mut Vec<String>, line: String)
    ensures
        line_views(final(lines)@) == line_views(old(lines)@).push(line@),
{
    proof {
        lemma_push_line(lines@, line);
    }
    lines.push(line);
}

/// The summary.
pub fn print_summary(stats: &Stats, state: &TraceState, bytes: usize) -> (lines: Vec<String>)
    ensures
        line_views(lines@) == summary_lines(*stats, state@, bytes as nat),
{
    let mut lines: Vec<String> = Vec::new();
    assert(line_views(lines@) =~= Seq::<Seq<char>>::empty());
    push_line(&mut lines, String::from_str("summary:"));
    push_line(&mut lines, count_line("  bytes=", bytes));
    push_line(&mut lines, count_line("  events=", stats.total));
    push_line(&mut lines, count_line("  metadata=", stats.metadata));
    push_line(&mut lines, count_line("  contexts=", stats.contexts));
    push_line(&mut lines, count_line("  instructions=", stats.instructions));
    push_line(&mut lines, count_line("  mem_accesses=", stats.mem_accesses));
    push_line(&mut lines, count_line("  external_returns=", stats.external_returns));
    push_line(&mut lines, count_line("  dynamic_chunks=", stats.dynamic_chunks));
    push_line(&mut lines, count_line("  unknown=", stats.unknown));
    if state.module_base != 0 || state.path.is_some() {
        let mut line: String = String::from_str("  module=");
        push_wide_hex(&mut line, state.module_base);
        line.append(" ");
        match &state.path {
            Some(path) => {
                line.append(path.as_str());
            },
            None => {},
        }
        assert(line@ =~= "  module="@ + wide_hex(state.module_base) + " "@ + match state@.path {
            Some(path) => path,
            None => Seq::empty(),
        });
        push_line(&mut lines, line);
    }
    assert(line_views(lines@) =~= summary_lines(*stats, state@, bytes as nat));
    lines
}

/// What dumping a bundle yields: the lines to print and, behind them, why the rest could
/// not be read.
#[derive(Debug)]
pub struct DumpReport {
    pub lines: Vec<String>,
    pub error: Option<String>,
}

/// Dumps a bundle.
pub fn dump_bundle(options: &Options, data: &[u8]) -> (result: Result<DumpReport, String>)
    ensures
        result is Ok <==> is_bundle(data@),
        result matches Err(message) ==> message@ == options.input@
            + " is not a TRB1 trace bundle"@,
        result matches Ok(report) ==> {
            &&& line_views(report.lines@) == dump_lines(options@, data@)
            &&& optional_text(report.error) == bundle_events(data@, 4, Seq::empty()).1
        },
{
    if !has_magic(data) {
        let mut message: String = options.input.clone();
        message.append(" is not a TRB1 trace bundle");
        return Err(message);
    }
    let bundle: BundleEvents = read_bundle(data, 4);
    let ghost events = event_views(bundle.events@);
    let mut lines: Vec<String> = Vec::new();
    let mut header: String = String::from_str("trace_bundle=");
    header.append(options.input.as_str());
    assert(line_views(lines@) =~= Seq::<Seq<char>>::empty());
    push_line(&mut lines, header);
    let limit: usize = if options.summary_only {
        0
    } else {
        match options.limit {
            Some(limit) => limit,
            None => bundle.events.len(),
        }
    };
    let ghost front = seq!["trace_bundle="@ + options.input@];
    assert(line_views(lines@) =~= front);
    let mut stats: Stats = Stats {
        total: 0,
        instructions: 0,
        mem_accesses: 0,
        external_returns: 0,
        dynamic_chunks: 0,
        contexts: 0,
        metadata: 0,
        unknown: 0,
    };
    let mut state: TraceState = TraceState { path: None, module_base: 0 };
    let mut index: usize = 0;
    let mut printed: usize = 0;
    assert(events.take(0) =~= Seq::<EventView>::empty());
    assert(state@ =~= state_of(events.take(0)));
    assert(line_views(lines@) =~= front + event_lines(events).take(0));
    while index < bundle.events.len()
        invariant
            index <= bundle.events@.len(),
            events == event_views(bundle.events@),
            printed == if index < limit {
                index
            } else {
                limit
            },
            printed <= events.len(),
            stats == stats_of(events.take(index as int)),
            state@ == state_of(events.take(index as int)),
            line_views(lines@) == front + event_lines(events).take(printed as int),
        decreases bundle.events@.len() - index,
    {
        proof {
            kinds_add_up(events.take(index as int));
            assert(events.take(index + 1).drop_last() =~= events.take(index as int));
            assert(events.take(index + 1).last() == bundle.events@[index as int]@);
        }
        let line: String = format_event(index, &bundle.events[index], &mut state, &mut stats);
        assert(line@ == event_lines(events)[index as int]);
        if printed < limit {
            push_line(&mut lines, line);
            printed = printed + 1;
            assert(line_views(lines@) =~= front + event_lines(events).take(printed as int));
        }
        index = index + 1;
    }
    assert(events.take(events.len() as int) =~= events);
    proof {
        let shown = event_lines(events).take(printed as int);
        if printed == events.len() {
            assert(shown =~= event_lines(events));
        }
        assert(shown =~= printed_lines(events, options@));
    }
    match bundle.error {
        Some(message) => Ok(DumpReport { lines, error: Some(message) }),
        None => {
            if !options.summary_only {
                match options.limit {
                    Some(limit) => {
                        if stats.total > limit {
                            proof {
                                kinds_add_up(events);
                            }
                            push_line(
                                &mut lines,
                                count_line("... truncated event output at --limit ", limit),
                            );
                        }
                    },
                    None => {},
                }
            }
            proof {
                kinds_add_up(events);
                assert(line_views(lines@) =~= front + printed_lines(events, options@)
                    + truncation_lines(events, options@));
            }
            let ghost earlier = lines@;
            let mut summary: Vec<String> = print_summary(&stats, &state, data.len());
            let ghost last = summary@;
            lines.append(&mut summary);
            assert(line_views(lines@) =~= line_views(earlier) + line_views(last));
            Ok(DumpReport { lines, error: None })
        },
    }
}

/// A bundle begins with the letters `TRB1`.
pub proof fn bundles_begin_with_their_mark(data: Seq<u8>)
    ensures
        is_bundle(data) <==> data.len() >= 4 && data.take(4).map_values(|b: u8| b as char)
            == "TRB1"@,
{
    reveal_strlit("TRB1");
    let mark = bundle_magic();
    let show = |b: u8| b as char;
    assert(mark.map_values(show) =~= "TRB1"@);
    if data.len() >= 4 && data.take(4).map_values(show) == "TRB1"@ {
        let front = data.take(4);
        assert forall|i: int| 0 <= i < 4 implies front[i] == mark[i] by {
            assert(front.map_values(show)[i] == mark.map_values(show)[i]);
        }
        assert(front =~= mark);
    }
}

/// Options are read from left to right: `--summary-only` and `--limit` with a number set
/// what they name, and any text without a dash is the input, of which there is one.
pub proof fn options_are_read_in_order(
    program: Seq<char>,
    args: Seq<Seq<char>>,
    pos: int,
    options: OptionsView,
)
    requires
        0 <= pos < args.len(),
    ensures
        args[pos] == "--help"@ || args[pos] == "-h"@ ==> options_from(program, args, pos, options)
            is Err,
        args[pos] == "--summary-only"@ ==> options_from(program, args, pos, options)
            == options_from(
            program,
            args,
            pos + 1,
            OptionsView { input: options.input, limit: options.limit, summary_only: true },
        ),
        args[pos] == "--limit"@ && pos + 1 == args.len() ==> options_from(
            program,
            args,
            pos,
            options,
        ) is Err,
        args[pos] == "--limit"@ && pos + 1 < args.len() ==> (match parsed_u64(args[pos + 1], 10) {
            Some(limit) => limit <= usize::MAX ==> options_from(program, args, pos, options)
                == options_from(
                program,
                args,
                pos + 2,
                OptionsView {
                    input: options.input,
                    limit: Some(limit as usize),
                    summary_only: options.summary_only,
                },
            ),
            None => options_from(program, args, pos, options) is Err,
        }),
        (args[pos].len() == 0 || args[pos][0] != '-') && options.input.len() == 0 ==> options_from(
            program,
            args,
            pos,
            options,
        ) == options_from(
            program,
            args,
            pos + 1,
            OptionsView {
                input: args[pos],
                limit: options.limit,
                summary_only: options.summary_only,
            },
        ),
        (args[pos].len() == 0 || args[pos][0] != '-') && options.input.len() > 0 ==> options_from(
            program,
            args,
            pos,
            options,
        ) is Err,
        args[pos].len() > 0 && args[pos][0] == '-' && args[pos] != "--summary-only"@ && args[pos]
            != "--limit"@ ==> options_from(program, args, pos, options) is Err,
        options_from(program, args, args.len() as int, options) is Ok <==> options.input.len() > 0,
        options_from(program, args, args.len() as int, options) matches Ok(last) ==> last
            == options,
{
    reveal_strlit("--help");
    reveal_strlit("-h");
    reveal_strlit("--summary-only");
    reveal_strlit("--limit");
    assert("--help"@.len() != "--limit"@.len());
    assert("--help"@.len() != "--summary-only"@.len());
    assert("-h"@.len() != "--limit"@.len());
    assert("-h"@.len() != "--summary-only"@.len());
    assert("--limit"@.len() != "--summary-only"@.len());
    assert("--help"@[0] == '-' && "-h"@[0] == '-' && "--summary-only"@[0] == '-' && "--limit"@[0]
        == '-');
}

} // verus!
