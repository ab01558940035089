//! Names of code addresses, and code addresses of names.

use crate::script::joined;
use crate::sorting::{stable_sort, stable_sorted};
use crate::text::{all_digits, chars_of, digit_of, digit_value, optional_text, same_text};
use vstd::prelude::*;
use vstd::string::*;

verus! {

/// What is known of the code at an address.
#[derive(Debug, PartialEq, Eq)]
pub struct DebugSymbolDetails {
    pub address: u64,
    pub name: Option<String>,
    pub module_name: Option<String>,
    pub file_name: Option<String>,
    pub line_number: Option<u32>,
    pub column: Option<u32>,
}

/// What a contract says of the details of a symbol.
pub ghost struct SymbolView {
    pub address: u64,
    pub name: Option<Seq<char>>,
    pub module_name: Option<Seq<char>>,
    pub file_name: Option<Seq<char>>,
    pub line_number: Option<u32>,
    pub column: Option<u32>,
}

impl DebugSymbolDetails {
    pub open spec fn view(&self) -> SymbolView {
        SymbolView {
            address: self.address,
            name: optional_text(self.name),
            module_name: optional_text(self.module_name),
            file_name: optional_text(self.file_name),
            line_number: self.line_number,
            column: self.column,
        }
    }
}

/// An address of which nothing is known.
pub open spec fn unknown_symbol(address: u64) -> SymbolView {
    SymbolView {
        address,
        name: None,
        module_name: None,
        file_name: None,
        line_number: None,
        column: None,
    }
}

impl Default for DebugSymbolDetails {
    fn default() -> (details: DebugSymbolDetails)
        ensures
            details@ == unknown_symbol(0),
    {
        DebugSymbolDetails {
            address: 0,
            name: None,
            module_name: None,
            file_name: None,
            line_number: None,
            column: None,
        }
    }
}

/// What the dynamic linker's tables say of an address.
#[derive(Debug)]
pub struct LinkerSymbol {
    pub symbol: Option<String>,
    pub module: Option<String>,
}

/// What the debug information says of an address; texts may be empty.
#[derive(Debug)]
pub struct ResolvedSymbol {
    pub address: u64,
    pub symbol_name: String,
    pub module_name: String,
    pub file_name: String,
    pub line_number: u32,
    pub column: u32,
}

/// A function that a query has found.
#[derive(Debug, PartialEq, Eq)]
pub struct ApiResolverMatch {
    pub name: String,
    pub address: u64,
    pub size: Option<u32>,
}

/// Whether a text holds the character that ends C strings.
pub open spec fn holds_nul(text: Seq<char>) -> bool {
    text.contains('\0')
}

/// The text as a C string, with its end.
pub fn c_string(value: &str, label: &str) -> (result: Result<String, String>)
    ensures
        result is Err <==> holds_nul(value@),
        result matches Ok(text) ==> text@ == value@.push('\0'),
        result matches Err(error) ==> error@ == label@ + " contains a NUL byte"@,
{
    let mut text: String = String::new();
    for c in it: value.chars()
        invariant
            it.seq() == value@,
            text@ == value@.take(it.index() as int),
            forall|i: int| 0 <= i < it.index() ==> value@[i] != '\0',
    {
        if c == '\0' {
            assert(value@[it.index() as int] == '\0');
            return Err(joined(label, " contains a NUL byte"));
        }
        text.push(c);
        assert(value@.take(it.index() as int + 1) =~= value@.take(it.index() as int).push(c));
    }
    assert(value@.take(value@.len() as int) =~= value@);
    text.push('\0');
    Ok(text)
}

/// A text unless it is empty.
pub fn option_nonempty(value: String) -> (text: Option<String>)
    ensures
        optional_text(text) == nonempty(value@),
{
    if value.as_str().is_empty() {
        None
    } else {
        Some(value)
    }
}

/// A text unless it is empty.
pub open spec fn nonempty(text: Seq<char>) -> Option<Seq<char>> {
    if text.len() == 0 {
        None
    } else {
        Some(text)
    }
}

/// Whether a name is no more than a hexadecimal offset.
pub open spec fn offset_placeholder(name: Seq<char>) -> bool {
    &&& name.len() > 2
    &&& name[0] == '0'
    &&& name[1] == 'x'
    &&& forall|i: int|
        2 <= i < name.len() ==> digit_value(#[trigger] name[i]) is Some && digit_value(name[i])->0
            < 16
}

/// Whether a name is no more than a hexadecimal offset.
pub fn is_offset_placeholder(value: &str) -> (placeholder: bool)
    ensures
        placeholder == offset_placeholder(value@),
{
    let name: Vec<char> = chars_of(value);
    if name.len() <= 2 || name[0] != '0' || name[1] != 'x' {
        return false;
    }
    let mut i: usize = 2;
    while i < name.len()
        invariant
            2 <= i <= name@.len(),
            name@ == value@,
            forall|k: int|
                2 <= k < i ==> digit_value(#[trigger] name@[k]) is Some && digit_value(name@[k])->0
                    < 16,
        decreases name@.len() - i,
    {
        match digit_of(name[i]) {
            Some(digit) => {
                if digit >= 16 {
                    return false;
                }
            },
            None => {
                return false;
            },
        }
        i = i + 1;
    }
    true
}

/// The first of two texts that is there.
pub open spec fn first_text(left: Option<Seq<char>>, right: Option<Seq<char>>) -> Option<
    Seq<char>,
> {
    match left {
        Some(text) => Some(text),
        None => right,
    }
}

/// The details of an address: those of the debug information, with a name and a module of
/// the linker where the former has none, or else those of the linker if it knows a name.
pub open spec fn symbol_at(
    address: u64,
    symbol: Option<Seq<char>>,
    module: Option<Seq<char>>,
    resolved: Option<ResolvedSymbol>,
) -> SymbolView {
    match resolved {
        Some(found) => {
            let name = nonempty(found.symbol_name@);
            SymbolView {
                address: found.address,
                name: if (name is None || offset_placeholder(name->0)) && symbol is Some {
                    symbol
                } else {
                    name
                },
                module_name: first_text(nonempty(found.module_name@), module),
                file_name: nonempty(found.file_name@),
                line_number: Some(found.line_number),
                column: Some(found.column),
            }
        },
        None => if symbol is Some {
            SymbolView { name: symbol, module_name: module, ..unknown_symbol(address) }
        } else {
            unknown_symbol(address)
        },
    }
}

/// The details of an address, from what the linker and the debug information say.
pub fn debug_symbol_from_address(
    address: u64,
    fallback: LinkerSymbol,
    resolved: Option<ResolvedSymbol>,
) -> (details: DebugSymbolDetails)
    ensures
        details@ == symbol_at(
            address,
            optional_text(fallback.symbol),
            optional_text(fallback.module),
            resolved,
        ),
{
    match resolved {
        Some(found) => {
            let mut name: Option<String> = option_nonempty(found.symbol_name);
            let nameless: bool = match &name {
                Some(text) => is_offset_placeholder(text.as_str()),
                None => true,
            };
            if nameless && fallback.symbol.is_some() {
                name = fallback.symbol;
            }
            let module_name: Option<String> = match option_nonempty(found.module_name) {
                Some(text) => Some(text),
                None => fallback.module,
            };
            DebugSymbolDetails {
                address: found.address,
                name,
                module_name,
                file_name: option_nonempty(found.file_name),
                line_number: Some(found.line_number),
                column: Some(found.column),
            }
        },
        None => {
            if fallback.symbol.is_some() {
                DebugSymbolDetails {
                    address,
                    name: fallback.symbol,
                    module_name: fallback.module,
                    file_name: None,
                    line_number: None,
                    column: None,
                }
            } else {
                DebugSymbolDetails {
                    address,
                    name: None,
                    module_name: None,
                    file_name: None,
                    line_number: None,
                    column: None,
                }
            }
        },
    }
}

/// A function that a search has found.
#[derive(Clone, Copy, Debug, PartialEq, Eq, Structural)]
pub struct FoundFunction {
    pub address: u64,
    /// Whether the address lies in mapped memory.
    pub mapped: bool,
}

/// The addresses of the functions that lie in mapped memory.
pub open spec fn mapped_addresses(found: Seq<FoundFunction>) -> Seq<u64>
    decreases found.len(),
{
    if found.len() == 0 {
        seq![]
    } else if found.last().mapped {
        mapped_addresses(found.drop_last()).push(found.last().address)
    } else {
        mapped_addresses(found.drop_last())
    }
}

/// `known` and those of `more` that are new.
pub open spec fn with_new(known: Seq<u64>, more: Seq<u64>) -> Seq<u64>
    decreases more.len(),
{
    if more.len() == 0 {
        known
    } else {
        let front = with_new(known, more.drop_last());
        if front.contains(more.last()) {
            front
        } else {
            front.push(more.last())
        }
    }
}

/// The functions that answer to a name or a pattern, in the order of their addresses.
pub open spec fn functions_of(pattern: Seq<char>, found: Seq<FoundFunction>, loaded: Seq<u64>) -> Seq<
    u64,
> {
    if holds_nul(pattern) {
        seq![]
    } else {
        stable_sorted(with_new(mapped_addresses(found), loaded))
    }
}

/// The functions that answer to a name or a pattern: those in mapped memory that the debug
/// information has, and those that the loaded modules list.
pub fn function_array(pattern: &str, found: &[FoundFunction], loaded: &[u64]) -> (addresses: Vec<
    u64,
>)
    ensures
        addresses@ == functions_of(pattern@, found@, loaded@),
{
    match c_string(pattern, "function name") {
        Ok(_) => {},
        Err(_) => {
            return Vec::new();
        },
    }
    let mut addresses: Vec<u64> = Vec::new();
    let mut i: usize = 0;
    assert(found@.take(0) =~= seq![]);
    while i < found.len()
        invariant
            i <= found@.len(),
            addresses@ == mapped_addresses(found@.take(i as int)),
        decreases found@.len() - i,
    {
        assert(found@.take(i + 1).drop_last() =~= found@.take(i as int));
        if found[i].mapped {
            addresses.push(found[i].address);
        }
        i = i + 1;
    }
    assert(found@.take(found@.len() as int) =~= found@);
    let ghost known = addresses@;
    let mut j: usize = 0;
    assert(loaded@.take(0) =~= seq![]);
    while j < loaded.len()
        invariant
            j <= loaded@.len(),
            addresses@ == with_new(known, loaded@.take(j as int)),
        decreases loaded@.len() - j,
    {
        assert(loaded@.take(j + 1).drop_last() =~= loaded@.take(j as int));
        if !holds_address(&addresses, loaded[j]) {
            addresses.push(loaded[j]);
        }
        j = j + 1;
    }
    assert(loaded@.take(loaded@.len() as int) =~= loaded@);
    stable_sort(addresses)
}

/// Whether an address is among the given ones.
fn holds_address(addresses: &Vec<u64>, address: u64) -> (held: bool)
    ensures
        held == addresses@.contains(address),
{
    let mut i: usize = 0;
    while i < addresses.len()
        invariant
            i <= addresses@.len(),
            forall|k: int| 0 <= k < i ==> addresses@[k] != address,
        decreases addresses@.len() - i,
    {
        if addresses[i] == address {
            return true;
        }
        i = i + 1;
    }
    false
}

proof fn lemma_with_new_keeps(known: Seq<u64>, more: Seq<u64>, address: u64)
    ensures
        with_new(known, more).contains(address) <==> known.contains(address) || more.contains(
            address,
        ),
    decreases more.len(),
{
    if more.len() > 0 {
        lemma_with_new_keeps(known, more.drop_last(), address);
        let front = with_new(known, more.drop_last());
        let last = more.last();
        assert(more =~= more.drop_last().push(last));
        assert(more.contains(address) <==> more.drop_last().contains(address) || address == last)
            by {
            if more.contains(address) {
                let i = choose|i: int| 0 <= i < more.len() && more[i] == address;
                if i < more.len() - 1 {
                    assert(more.drop_last()[i] == address);
                }
            }
            if more.drop_last().contains(address) {
                let i = choose|i: int|
                    0 <= i < more.drop_last().len() && more.drop_last()[i] == address;
                assert(more[i] == address);
            }
            if address == last {
                assert(more[more.len() - 1] == address);
            }
        }
        let all = with_new(known, more);
        if !front.contains(last) {
            assert(all == front.push(last));
            if all.contains(address) {
                let i = choose|i: int| 0 <= i < all.len() && all[i] == address;
                if i < front.len() {
                    assert(front[i] == address);
                }
            }
            if front.contains(address) {
                let i = choose|i: int| 0 <= i < front.len() && front[i] == address;
                assert(all[i] == address);
            }
            if address == last {
                assert(all[front.len() as int] == address);
            }
        }
    }
}

proof fn lemma_mapped_addresses(found: Seq<FoundFunction>, address: u64)
    ensures
        mapped_addresses(found).contains(address) <==> found.contains(
            FoundFunction { address, mapped: true },
        ),
    decreases found.len(),
{
    let wanted = FoundFunction { address, mapped: true };
    if found.len() > 0 {
        lemma_mapped_addresses(found.drop_last(), address);
        let front = mapped_addresses(found.drop_last());
        let all = mapped_addresses(found);
        if found.contains(wanted) {
            let i = choose|i: int| 0 <= i < found.len() && found[i] == wanted;
            if i < found.len() - 1 {
                assert(found.drop_last()[i] == wanted);
                let k = choose|k: int| 0 <= k < front.len() && front[k] == address;
                assert(all[k] == address);
            } else {
                assert(all[front.len() as int] == address);
            }
        }
        if all.contains(address) {
            let k = choose|k: int| 0 <= k < all.len() && all[k] == address;
            if k < front.len() {
                assert(front[k] == address);
                let i = choose|i: int|
                    0 <= i < found.drop_last().len() && found.drop_last()[i] == wanted;
                assert(found[i] == wanted);
            } else {
                assert(found[found.len() - 1] == wanted);
            }
        }
    }
}

/// A search without a stray character gives every function in mapped memory that the debug
/// information has and every one that the loaded modules list, nothing else, in ascending
/// order.
pub proof fn functions_come_from_both_sources(
    pattern: Seq<char>,
    found: Seq<FoundFunction>,
    loaded: Seq<u64>,
    address: u64,
)
    requires
        !holds_nul(pattern),
    ensures
        functions_of(pattern, found, loaded).contains(address) <==> found.contains(
            FoundFunction { address, mapped: true },
        ) || loaded.contains(address),
        forall|i: int, j: int|
            #![trigger functions_of(pattern, found, loaded)[i], functions_of(
                pattern,
                found,
                loaded,
            )[j]]
            0 <= i <= j < functions_of(pattern, found, loaded).len() ==> functions_of(
                pattern,
                found,
                loaded,
            )[i] <= functions_of(pattern, found, loaded)[j],
{
    broadcast use vstd::seq_lib::group_to_multiset_ensures;

    let merged = with_new(mapped_addresses(found), loaded);
    let sorted = stable_sorted(merged);
    crate::sorting::stable_sorted_orders(merged);
    lemma_with_new_keeps(mapped_addresses(found), loaded, address);
    lemma_mapped_addresses(found, address);
    assert(sorted.contains(address) <==> sorted.to_multiset().count(address) > 0);
    assert(merged.contains(address) <==> merged.to_multiset().count(address) > 0);
    assert forall|i: int, j: int|
        #![trigger sorted[i], sorted[j]]
        0 <= i <= j < sorted.len() implies sorted[i] <= sorted[j] by {
        assert(crate::sorting::SortKey::sort_key(&sorted[i]) <= crate::sorting::SortKey::sort_key(
            &sorted[j],
        ));
    }
}

/// A function and the name that its address has.
#[derive(Debug)]
pub struct NamedFunction {
    pub address: u64,
    pub name: Option<String>,
}

/// The first function that has exactly the name, or else the first one at all.
pub open spec fn chosen_function(name: Seq<char>, functions: Seq<NamedFunction>) -> Option<u64> {
    if exists|i: int|
        0 <= i < functions.len() && optional_text((#[trigger] functions[i]).name) == Some(name) {
        let first = choose|i: int|
            0 <= i < functions.len() && optional_text((#[trigger] functions[i]).name) == Some(name)
                && forall|k: int|
                0 <= k < i ==> optional_text((#[trigger] functions[k]).name) != Some(name);
        Some(functions[first].address)
    } else if functions.len() > 0 {
        Some(functions[0].address)
    } else {
        None
    }
}

/// The function that a name stands for, among those that answer to it.
pub fn find_function(name: &str, functions: &[NamedFunction]) -> (address: Option<u64>)
    ensures
        address == chosen_function(name@, functions@),
{
    let mut i: usize = 0;
    while i < functions.len()
        invariant
            i <= functions@.len(),
            forall|k: int|
                0 <= k < i ==> optional_text((#[trigger] functions@[k]).name) != Some(name@),
        decreases functions@.len() - i,
    {
        let exact: bool = match &functions[i].name {
            Some(text) => same_text(text.as_str(), name),
            None => false,
        };
        if exact {
            proof {
                assert(optional_text(functions@[i as int].name) == Some(name@));
                let first = choose|m: int|
                    0 <= m < functions@.len() && optional_text((#[trigger] functions@[m]).name)
                        == Some(name@) && forall|k: int|
                        0 <= k < m ==> optional_text((#[trigger] functions@[k]).name) != Some(
                            name@,
                        );
                assert(first == i);
            }
            return Some(functions[i].address);
        }
        i = i + 1;
    }
    if functions.len() > 0 {
        Some(functions[0].address)
    } else {
        None
    }
}

/// The details of the function that a name stands for, if there is one.
pub fn debug_symbol_from_name(found: Option<DebugSymbolDetails>) -> (details: DebugSymbolDetails)
    ensures
        details@ == match found {
            Some(symbol) => symbol@,
            None => unknown_symbol(0),
        },
{
    match found {
        Some(symbol) => symbol,
        None => DebugSymbolDetails::default(),
    }
}

/// The address of the function that a name stands for.
pub fn debug_symbol_get_function_by_name(name: &str, functions: &[NamedFunction]) -> (result: Result<
    u64,
    String,
>)
    ensures
        result is Ok <==> functions@.len() > 0,
        result matches Ok(address) ==> Some(address) == chosen_function(name@, functions@),
        result matches Err(error) ==> error@ == "unable to find function with name '"@ + name@
            + "'"@,
{
    match find_function(name, functions) {
        Some(address) => Ok(address),
        None => {
            let mut error: String = String::from_str("unable to find function with name '");
            error.append(name);
            error.append("'");
            Err(error)
        },
    }
}

/// Whether the debug information at a path can be asked for: the path to hand on.
pub fn debug_symbol_load(path: &str) -> (result: Result<String, String>)
    ensures
        result is Err <==> holds_nul(path@),
        result matches Ok(text) ==> text@ == path@.push('\0'),
        result matches Err(error) ==> error@ == "symbol path contains a NUL byte"@,
{
    let result: Result<String, String> = c_string(path, "symbol path");
    proof {
        reveal_strlit("symbol path");
        reveal_strlit(" contains a NUL byte");
        reveal_strlit("symbol path contains a NUL byte");
        assert("symbol path"@ + " contains a NUL byte"@ =~= "symbol path contains a NUL byte"@);
    }
    result
}

/// What came of asking for debug information.
pub fn symbols_loaded(loaded: bool) -> (result: Result<(), String>)
    ensures
        result is Ok <==> loaded,
        result matches Err(error) ==> error@ == "unable to load symbols"@,
{
    if loaded {
        Ok(())
    } else {
        Err(String::from_str("unable to load symbols"))
    }
}

/// The size of a function as a script sees it: none if it is unknown or out of range.
pub open spec fn match_size(size: i64) -> Option<u32> {
    if 0 <= size <= u32::MAX {
        Some(size as u32)
    } else {
        None
    }
}

/// Takes in one function that a query has found.
pub fn collect_api_match(
    matches: &mut Vec<ApiResolverMatch>,
    name: String,
    address: u64,
    size: i64,
)
    ensures
        final(matches)@ == old(matches)@.push(
            (ApiResolverMatch { name, address, size: match_size(size) }),
        ),
{
    let size: Option<u32> = if size >= 0 && size <= 0xffff_ffff {
        Some(size as u32)
    } else {
        None
    };
    matches.push(ApiResolverMatch { name, address, size });
}

/// Why a query cannot be made, or the query to hand on.
pub fn module_query(resolver: u64, query: &str) -> (result: Result<String, String>)
    ensures
        result is Ok <==> resolver != 0 && !holds_nul(query@),
        result matches Ok(text) ==> text@ == query@.push('\0'),
        result matches Err(error) ==> error@ == if resolver == 0 {
            "the module ApiResolver is not available"@
        } else {
            "ApiResolver query"@ + " contains a NUL byte"@
        },
{
    if resolver == 0 {
        return Err(String::from_str("the module ApiResolver is not available"));
    }
    c_string(query, "ApiResolver query")
}

/// What a query has found, unless it failed; a failure may come without a reason.
pub fn enumerate_module_api_matches(matches: Vec<ApiResolverMatch>, error: Option<String>) -> (result:
    Result<Vec<ApiResolverMatch>, String>)
    ensures
        result is Ok <==> error is None,
        result matches Ok(found) ==> found == matches,
        result matches Err(message) ==> message@ == if error->0@.len() == 0 {
            "invalid module query"@
        } else {
            error->0@
        },
{
    match error {
        None => Ok(matches),
        Some(reason) => {
            match option_nonempty(reason) {
                Some(message) => Err(message),
                None => Err(String::from_str("invalid module query")),
            }
        },
    }
}

/// The name of an address is that of the debug information, unless that is missing or no
/// more than an offset and the linker knows one; the module is that of the debug
/// information, or else of the linker. File, line and column come from the debug
/// information alone.
pub proof fn names_come_from_the_better_source(
    address: u64,
    symbol: Option<Seq<char>>,
    module: Option<Seq<char>>,
    resolved: ResolvedSymbol,
)
    ensures
        ({
            let view = symbol_at(address, symbol, module, Some(resolved));
            let own = resolved.symbol_name@;
            let only_offset = own.len() > 2 && own[0] == '0' && own[1] == 'x' && all_digits(
                own.skip(2),
                16,
            );
            &&& view.address == resolved.address
            &&& own.len() > 0 && !only_offset ==> view.name == Some(own)
            &&& (own.len() == 0 || only_offset) && symbol is Some ==> view.name == symbol
            &&& own.len() == 0 && symbol is None ==> view.name is None
            &&& only_offset && symbol is None ==> view.name == Some(own)
            &&& resolved.module_name@.len() > 0 ==> view.module_name == Some(resolved.module_name@)
            &&& resolved.module_name@.len() == 0 ==> view.module_name == module
            &&& resolved.file_name@.len() > 0 ==> view.file_name == Some(resolved.file_name@)
            &&& resolved.file_name@.len() == 0 ==> view.file_name is None
            &&& view.line_number == Some(resolved.line_number)
            &&& view.column == Some(resolved.column)
        }),
        ({
            let view = symbol_at(address, symbol, module, None);
            &&& view.address == address
            &&& view.name == symbol
            &&& symbol is Some ==> view.module_name == module
            &&& symbol is None ==> view.module_name is None
            &&& view.file_name is None
            &&& view.line_number is None
            &&& view.column is None
        }),
{
    let own = resolved.symbol_name@;
    if own.len() > 2 {
        let rest = own.skip(2);
        if all_digits(rest, 16) {
            assert forall|i: int| 2 <= i < own.len() implies digit_value(#[trigger] own[i]) is Some
                && digit_value(own[i])->0 < 16 by {
                assert(rest[i - 2] == own[i]);
                assert(digit_value(rest[i - 2]) is Some);
            }
        }
        if offset_placeholder(own) {
            assert forall|i: int| 0 <= i < rest.len() implies (#[trigger] digit_value(rest[i])) is Some
                && digit_value(rest[i])->0 < 16 by {
                assert(rest[i] == own[i + 2]);
            }
        }
    }
}

/// The function that a name stands for is the first with exactly that name, or else the
/// first of all.
pub proof fn exact_names_come_first(name: Seq<char>, functions: Seq<NamedFunction>, at: int)
    ensures
        functions.len() == 0 ==> chosen_function(name, functions) is None,
        functions.len() > 0 && (forall|i: int|
            0 <= i < functions.len() ==> optional_text((#[trigger] functions[i]).name) != Some(
                name,
            )) ==> chosen_function(name, functions) == Some(functions[0].address),
        0 <= at < functions.len() && optional_text(functions[at].name) == Some(name) && (forall|
            k: int,
        |
            0 <= k < at ==> optional_text((#[trigger] functions[k]).name) != Some(name))
            ==> chosen_function(name, functions) == Some(functions[at].address),
{
    if 0 <= at < functions.len() && optional_text(functions[at].name) == Some(name) && (forall|
        k: int,
    |
        0 <= k < at ==> optional_text((#[trigger] functions[k]).name) != Some(name)) {
        let first = choose|i: int|
            0 <= i < functions.len() && optional_text((#[trigger] functions[i]).name) == Some(name)
                && forall|k: int|
                0 <= k < i ==> optional_text((#[trigger] functions[k]).name) != Some(name);
        assert(optional_text(functions[first].name) == Some(name));
        assert(first == at);
    }
}

/// The size of a function is kept if it is one: not below zero and within thirty-two bits.
pub proof fn sizes_are_kept_if_they_fit(size: i64)
    ensures
        0 <= size <= 0xffff_ffff ==> match_size(size) == Some(size as u32),
        size < 0 || size > 0xffff_ffff ==> match_size(size) is None,
{
}

} // verus!
