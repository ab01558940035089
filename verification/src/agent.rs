//! What the agent does for the code that it is loaded with.

use crate::text::{numeral, push_signed, signed_numeral};
use vstd::prelude::*;
use vstd::string::*;

verus! {

/// A function that the engine needs before it can look functions up itself.
#[derive(Clone, Copy, Debug, PartialEq, Eq, Structural)]
pub enum BootstrapFunction {
    Exit,
    Open,
    IterateModules,
}

/// The name of a function that the engine needs early.
pub open spec fn bootstrap_name(function: BootstrapFunction) -> Seq<u8> {
    match function {
        BootstrapFunction::Exit => seq![101u8, 120, 105, 116],
        BootstrapFunction::Open => seq![111u8, 112, 101, 110],
        BootstrapFunction::IterateModules => seq![
            100u8,
            108,
            95,
            105,
            116,
            101,
            114,
            97,
            116,
            101,
            95,
            112,
            104,
            100,
            114,
        ],
    }
}

fn same_bytes(left: &[u8], right: &Vec<u8>) -> (same: bool)
    ensures
        same == (left@ == right@),
{
    if left.len() != right.len() {
        return false;
    }
    let mut i: usize = 0;
    while i < left.len()
        invariant
            i <= left@.len(),
            left@.len() == right@.len(),
            forall|k: int| 0 <= k < i ==> left@[k] == right@[k],
        decreases left@.len() - i,
    {
        if left[i] != right[i] {
            return false;
        }
        i = i + 1;
    }
    assert(left@ =~= right@);
    true
}

/// The function that is given for a name without looking it up; no name gives none.
pub fn wrap_dlsym(name: Option<&[u8]>) -> (function: Option<BootstrapFunction>)
    ensures
        function matches Some(f) ==> name is Some && name->0@ == bootstrap_name(f),
        function is None ==> name is None || forall|f: BootstrapFunction|
            (#[trigger] bootstrap_name(f)) != name->0@,
{
    let name: &[u8] = match name {
        Some(name) => name,
        None => {
            return None;
        },
    };
    let exit: Vec<u8> = vec![101, 120, 105, 116];
    let open: Vec<u8> = vec![111, 112, 101, 110];
    let iterate: Vec<u8> = vec![
        100, 108, 95, 105, 116, 101, 114, 97, 116, 101, 95, 112, 104, 100, 114,
    ];
    assert(exit@ =~= bootstrap_name(BootstrapFunction::Exit));
    assert(open@ =~= bootstrap_name(BootstrapFunction::Open));
    assert(iterate@ =~= bootstrap_name(BootstrapFunction::IterateModules));
    if same_bytes(name, &exit) {
        Some(BootstrapFunction::Exit)
    } else if same_bytes(name, &open) {
        Some(BootstrapFunction::Open)
    } else if same_bytes(name, &iterate) {
        Some(BootstrapFunction::IterateModules)
    } else {
        None
    }
}

/// What is written for a line of the engine's log, and the answer to the engine. There is
/// no text if the engine gave none.
pub fn android_log_write(text: Option<&[u8]>) -> (written: (Vec<u8>, i32))
    ensures
        written.1 == if text is Some {
            1int
        } else {
            -1
        },
        text matches Some(bytes) ==> written.0@ == bytes@.push(10u8),
        text is None ==> written.0@.len() == 0,
{
    match text {
        None => (Vec::new(), -1),
        Some(bytes) => {
            let mut line: Vec<u8> = vstd::slice::slice_to_vec(bytes);
            line.push(10);
            (line, 1)
        },
    }
}

/// Where a panic happened.
#[derive(Debug)]
pub struct PanicLocation {
    pub file: String,
    pub line: u32,
    pub column: u32,
}

/// Where a panic happened, in words.
pub open spec fn location_text(location: Option<PanicLocation>) -> Seq<char> {
    match location {
        Some(at) => at.file@ + ":"@ + numeral(at.line as nat, 10) + ":"@ + numeral(
            at.column as nat,
            10,
        ),
        None => "unknown"@,
    }
}

/// The report of a panic.
pub open spec fn panic_text(
    location: Option<PanicLocation>,
    payload: Option<Seq<char>>,
    pid: u32,
    tid: i32,
    backtrace: Seq<char>,
) -> Seq<char> {
    "\n\n=== RUST PANIC ===\nLocation: "@ + location_text(location) + "\nMessage: "@ + (
    match payload {
        Some(text) => text,
        None => "unknown panic"@,
    }) + "\nPID: "@ + numeral(pid as nat, 10) + ", TID: "@ + signed_numeral(tid as int, 10)
        + "\n\nBacktrace:\n"@ + backtrace + "\n=================\n\n"@
}

/// The report of a panic. The payload is missing if it is no text.
pub fn panic_report(
    location: Option<PanicLocation>,
    payload: Option<&str>,
    pid: u32,
    tid: i32,
    backtrace: &str,
) -> (report: String)
    ensures
        report@ == panic_text(
            location,
            match payload {
                Some(text) => Some(text@),
                None => None,
            },
            pid,
            tid,
            backtrace@,
        ),
{
    let mut report: String = String::from_str("\n\n=== RUST PANIC ===\nLocation: ");
    let ghost start = report@;
    match &location {
        Some(at) => {
            report.append(at.file.as_str());
            report.append(":");
            push_signed(&mut report, at.line as i64);
            report.append(":");
            push_signed(&mut report, at.column as i64);
        },
        None => {
            report.append("unknown");
        },
    }
    assert(report@ =~= start + location_text(location));
    report.append("\nMessage: ");
    match payload {
        Some(text) => {
            report.append(text);
        },
        None => {
            report.append("unknown panic");
        },
    }
    report.append("\nPID: ");
    push_signed(&mut report, pid as i64);
    report.append(", TID: ");
    push_signed(&mut report, tid as i64);
    report.append("\n\nBacktrace:\n");
    report.append(backtrace);
    report.append("\n=================\n\n");
    report
}

/// The functions that the engine needs early go by their names in the system's libraries.
pub proof fn early_functions_go_by_their_names()
    ensures
        bootstrap_name(BootstrapFunction::Exit).map_values(|b: u8| b as char) == "exit"@,
        bootstrap_name(BootstrapFunction::Open).map_values(|b: u8| b as char) == "open"@,
        bootstrap_name(BootstrapFunction::IterateModules).map_values(|b: u8| b as char)
            == "dl_iterate_phdr"@,
{
    reveal_strlit("exit");
    reveal_strlit("open");
    reveal_strlit("dl_iterate_phdr");
    assert(bootstrap_name(BootstrapFunction::Exit).map_values(|b: u8| b as char) =~= "exit"@);
    assert(bootstrap_name(BootstrapFunction::Open).map_values(|b: u8| b as char) =~= "open"@);
    assert(bootstrap_name(BootstrapFunction::IterateModules).map_values(|b: u8| b as char)
        =~= "dl_iterate_phdr"@);
}

/// The place of a panic is its file, line and column, with colons between them.
pub proof fn places_show_file_line_and_column(at: PanicLocation) -> (parts: (Seq<char>, Seq<char>))
    ensures
        location_text(Some(at)) == at.file@ + ":"@ + parts.0 + ":"@ + parts.1,
        crate::text::spells(parts.0, at.line as nat, 10, 1),
        crate::text::spells(parts.1, at.column as nat, 10, 1),
        location_text(None) == "unknown"@,
{
    crate::text::numerals_spell_their_values(at.line as nat, 10, 1);
    crate::text::numerals_spell_their_values(at.column as nat, 10, 1);
    (numeral(at.line as nat, 10), numeral(at.column as nat, 10))
}

} // verus!
