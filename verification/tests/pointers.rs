use rustfrida::int64::{parse_bits, register_int64_api, Int64, UInt64};
use rustfrida::pointer::{
    create_native_pointer, format_native_pointer, get_native_pointer_addr, get_or_init_class_id,
    js_ptr, native_pointer_add, native_pointer_as_i32, native_pointer_as_u32,
    native_pointer_combine, native_pointer_compare, native_pointer_equals,
    native_pointer_is_null, native_pointer_not, native_pointer_shift, native_pointer_strip,
    native_pointer_sub, native_pointer_to_int32, native_pointer_to_json,
    native_pointer_to_match_pattern, native_pointer_to_number, native_pointer_to_string,
    native_pointer_to_uint32, parse_offset, parse_pointer_operand, signed_bits, unsigned_bits,
    Allocations, BitOperation, NativePointerData, PointerArgument, RadixArgument,
};
use rustfrida::script::{ErrorKind, ScriptError};

#[test]
fn formats_native_pointer_as_hex_string() {
    assert_eq!(format_native_pointer(0x1234_abcd), "0x1234abcd");
}

#[test]
fn truncates_native_pointer_to_32_bits() {
    assert_eq!(native_pointer_as_i32(0xffff_ffff), -1);
    assert_eq!(native_pointer_as_u32(0xffff_ffff), u32::MAX);
    assert_eq!(native_pointer_as_i32(0x1_0000_0001), 1);
    assert_eq!(native_pointer_as_u32(0x1_0000_0001), 1);
}

#[test]
fn wraps_and_operates_at_64_bits() {
    let signed = Int64::new("0x7fffffffffffffff").unwrap().add(1);
    let unsigned = UInt64::new("0xffffffffffffffff").unwrap().add(1);
    assert_eq!(signed.to_string(10), "-9223372036854775808");
    assert_eq!(signed.to_string(16), "-8000000000000000");
    assert_eq!(unsigned.to_string(10), "0");
    assert_eq!(UInt64::new("-1").unwrap().to_string(16), "ffffffffffffffff");
    assert_eq!(Int64::new("-1").unwrap().shr(1).to_string(10), "-1");
    assert_eq!(
        format!("\"{}\"", UInt64::new("18446744073709551615").unwrap().to_json()),
        "\"18446744073709551615\""
    );
}

#[test]
fn integers_are_reduced_and_read_back() {
    assert_eq!(parse_bits("18446744073709551617"), Some(1));
    assert_eq!(parse_bits("0x"), None);
    assert_eq!(parse_bits("12a"), None);
    assert_eq!(parse_bits("-"), None);
    for value in [i64::MIN, -1, 0, 1, i64::MAX] {
        let number = Int64 { value };
        assert_eq!(Int64::new(&number.to_json()), Some(number));
    }
    assert_eq!(Int64 { value: 9 }.shr(1).value, 4);
    assert_eq!(Int64 { value: -9 }.shr(1).value, -5);
    assert_eq!(UInt64 { value: 9 }.shr(64).value, 0);
    assert_eq!(register_int64_api(Ok(())), None);
    assert_eq!(
        register_int64_api(Err("no".to_string())).unwrap(),
        "[int64] bootstrap failed: no"
    );
    assert_eq!(signed_bits(u64::MAX), -1);
    assert_eq!(unsigned_bits(i64::MIN), 1 << 63);
}

fn text(value: &str) -> PointerArgument {
    PointerArgument::Text(Some(value.to_string()))
}

fn number(value: i64) -> PointerArgument {
    PointerArgument::Number { unsigned: Some(value as u64), signed: Some(value) }
}

fn pointer(addr: u64) -> PointerArgument {
    PointerArgument::Pointer(create_native_pointer(addr))
}

fn message<T>(result: Result<T, ScriptError>) -> String {
    result.err().unwrap().message
}

#[test]
fn pointers_are_made_of_texts_and_numbers() {
    assert_eq!(js_ptr(Some(&text(" 0x1234 "))).unwrap().addr, 0x1234);
    assert_eq!(js_ptr(Some(&text("ff"))).unwrap().addr, 0xff);
    assert_eq!(js_ptr(Some(&text("0x0x0Xff"))).unwrap().addr, 0xff);
    assert_eq!(js_ptr(Some(&text("\u{2003}0xff\u{2003}"))).unwrap().addr, 0xff);
    assert_eq!(js_ptr(Some(&number(-1))).unwrap().addr, u64::MAX);
    let owned = NativePointerData { addr: 7, owner: Some(3) };
    assert_eq!(js_ptr(Some(&PointerArgument::Pointer(owned))).unwrap(), owned);
    assert_eq!(message(js_ptr(None)), "ptr() requires 1 argument");
    assert_eq!(message(js_ptr(Some(&text("xyz")))), "Invalid hex string");
    assert_eq!(message(js_ptr(Some(&PointerArgument::Text(None)))), "Invalid string");
    assert_eq!(
        message(js_ptr(Some(&PointerArgument::Number { unsigned: None, signed: None }))),
        "ptr() failed to convert numeric value"
    );
    assert_eq!(
        message(js_ptr(Some(&PointerArgument::Callable(5)))),
        "ptr() argument must be number, string, or BigInt"
    );
}

#[test]
fn pointer_texts_read_back() {
    for addr in [0, 1, 0x1234_abcd, u64::MAX] {
        let shown = format_native_pointer(addr);
        assert_eq!(js_ptr(Some(&text(&shown))).unwrap().addr, addr);
        assert_eq!(parse_pointer_operand(&text(&shown), "equals").unwrap(), addr);
    }
}

#[test]
fn operands_convert_strictly() {
    assert_eq!(parse_pointer_operand(&PointerArgument::Callable(5), "and").unwrap(), 5);
    assert_eq!(parse_pointer_operand(&number(5), "and").unwrap(), 5);
    assert_eq!(
        message(parse_pointer_operand(&text("12"), "and")),
        "and: pointer string must be hexadecimal"
    );
    assert_eq!(
        message(parse_pointer_operand(&text("0xzz"), "and")),
        "and: invalid pointer string"
    );
    assert_eq!(
        message(parse_pointer_operand(&PointerArgument::Text(None), "and")),
        "invalid pointer string"
    );
    assert_eq!(
        message(parse_pointer_operand(&PointerArgument::Other, "and")),
        "and: expected a pointer-compatible value"
    );
}

#[test]
fn offsets_convert_strictly() {
    assert_eq!(parse_offset(&number(-3)).unwrap(), -3);
    assert_eq!(parse_offset(&text("0x10")).unwrap(), 16);
    assert_eq!(parse_offset(&text("0xffffffffffffffff")).unwrap(), -1);
    assert_eq!(parse_offset(&pointer(9)).unwrap(), 9);
    assert_eq!(message(parse_offset(&text("16"))), "string offset must be hex (0x...)");
    assert_eq!(message(parse_offset(&text("0x"))), "invalid hex string");
    assert_eq!(message(parse_offset(&PointerArgument::Text(None))), "invalid string argument");
    assert_eq!(
        message(parse_offset(&PointerArgument::Number { unsigned: None, signed: None })),
        "failed to convert numeric offset"
    );
    assert_eq!(
        message(parse_offset(&PointerArgument::Other)),
        "offset must be a number, hex string, or NativePointer"
    );
}

#[test]
fn moving_there_and_back_ends_where_it_began() {
    let start = NativePointerData { addr: 5, owner: Some(1) };
    let there = native_pointer_sub(Some(start), Some(&number(10))).unwrap();
    assert_eq!(there, NativePointerData { addr: u64::MAX - 4, owner: Some(1) });
    assert_eq!(native_pointer_add(Some(there), Some(&number(10))).unwrap(), start);
    assert_eq!(message(native_pointer_add(None, Some(&number(1)))), "Not a NativePointer");
    assert_eq!(message(native_pointer_add(Some(start), None)), "add() requires 1 argument");
    assert_eq!(message(native_pointer_sub(Some(start), None)), "sub() requires 1 argument");
}

#[test]
fn bits_are_combined_shifted_and_turned_over() {
    let start = Some(create_native_pointer(0xf0));
    let combine =
        |operation| native_pointer_combine(operation, start, Some(&number(0x3c))).unwrap().addr;
    assert_eq!(combine(BitOperation::And), 0x30);
    assert_eq!(combine(BitOperation::Or), 0xfc);
    assert_eq!(combine(BitOperation::Xor), 0xcc);
    assert_eq!(
        message(native_pointer_combine(BitOperation::Or, start, None)),
        "or() requires 1 argument"
    );
    assert_eq!(native_pointer_shift(start, Some(&number(65)), true).unwrap().addr, 0x1e0);
    assert_eq!(native_pointer_shift(start, Some(&number(4)), false).unwrap().addr, 0xf);
    assert_eq!(
        message(native_pointer_shift(start, None, true)),
        "shift operation requires 1 argument"
    );
    let turned = native_pointer_not(start).unwrap();
    assert_eq!(turned.addr, !0xf0);
    assert_eq!(native_pointer_not(Some(turned)).unwrap().addr, 0xf0);
    let tagged = Some(create_native_pointer(0xb400_0000_0000_1234));
    assert_eq!(native_pointer_strip(tagged, true).unwrap().addr, 0x1234);
    assert_eq!(native_pointer_strip(tagged, false).unwrap().addr, 0xb400_0000_0000_1234);
    assert_eq!(message(native_pointer_strip(None, true)), "Not a NativePointer");
}

#[test]
fn addresses_are_compared_and_shown() {
    assert!(native_pointer_equals(&pointer(5), Some(&number(5))).unwrap());
    assert_eq!(
        message(native_pointer_equals(&pointer(5), None)),
        "equals() requires 1 argument"
    );
    assert_eq!(native_pointer_compare(&pointer(5), Some(&number(6))).unwrap(), -1);
    assert_eq!(native_pointer_compare(&pointer(6), Some(&number(6))).unwrap(), 0);
    assert_eq!(
        message(native_pointer_compare(&pointer(5), None)),
        "compare() requires 1 argument"
    );
    assert!(native_pointer_is_null(&pointer(0)).unwrap());
    assert_eq!(message(native_pointer_is_null(&PointerArgument::Other)), "Not a NativePointer");
    let shown = |radix| native_pointer_to_string(&pointer(255), radix);
    assert_eq!(shown(RadixArgument::Missing).unwrap(), "0xff");
    assert_eq!(shown(RadixArgument::Number(16)).unwrap(), "ff");
    assert_eq!(
        message(shown(RadixArgument::Other)),
        "toString(): radix must be an integer"
    );
    let unsupported = shown(RadixArgument::Number(2)).unwrap_err();
    assert_eq!(unsupported.kind, ErrorKind::RangeError);
    assert_eq!(unsupported.message, "toString(): unsupported radix");
    assert_eq!(native_pointer_to_json(&pointer(255)).unwrap(), "0xff");
    assert_eq!(native_pointer_to_number(&pointer(255)).unwrap(), 255);
    assert_eq!(native_pointer_to_int32(&pointer(0xffff_ffff)).unwrap(), -1);
    assert_eq!(native_pointer_to_uint32(&pointer(0x1_0000_0002)).unwrap(), 2);
    assert_eq!(
        native_pointer_to_match_pattern(&pointer(0x1234_5678_9abc_def0)).unwrap(),
        "f0 de bc 9a 78 56 34 12"
    );
    assert_eq!(get_native_pointer_addr(&PointerArgument::Callable(8)), Some(8));
}

#[test]
fn an_allocation_lives_as_long_as_its_last_pointer() {
    let mut allocations = Allocations::new();
    let block = allocations.create_owned_native_pointer(0x5000);
    let inner = allocations.create_native_pointer_with_owner(0x5010, block.owner);
    let other = allocations.create_owned_native_pointer(0x6000);
    assert_ne!(block.owner, other.owner);
    assert_eq!(allocations.native_pointer_finalizer(block), None);
    assert_eq!(allocations.native_pointer_finalizer(other), Some(0x6000));
    assert_eq!(allocations.native_pointer_finalizer(inner), Some(0x5000));
    assert_eq!(allocations.native_pointer_finalizer(create_native_pointer(1)), None);
    assert!(allocations.live.is_empty());
}

#[test]
fn the_class_of_pointers_is_made_once() {
    let mut slot = 0;
    assert_eq!(get_or_init_class_id(&mut slot, 5), 5);
    assert_eq!(get_or_init_class_id(&mut slot, 6), 5);
}

#[test]
fn integers_are_written_in_any_base() {
    assert_eq!(Int64::new("-35").unwrap().to_string(36), "-z");
    assert_eq!(UInt64::new("1295").unwrap().to_string(36), "zz");
    assert_eq!(UInt64::new("5").unwrap().to_string(2), "101");
}
