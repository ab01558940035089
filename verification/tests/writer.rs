use rustfrida::stalker_writer::{
    decode_gum_arguments, relocator_invoke, standalone_writer_create, standalone_writer_reset,
    writer_enums, writer_finish, writer_invoke, Arm64Codes, GumArgument, Operand, RelocatorCall,
    RelocatorHandle, RelocatorOp, WriterOp, WriterResetStep, ARG_KIND_ADDRESS, ARG_KIND_REGISTER,
    REFUSED,
};

#[test]
fn calls_of_the_writer_are_decoded() {
    let call = writer_invoke(1, Some(WriterOp::PutBImm), &[0x4000]).unwrap();
    assert_eq!(call.op, WriterOp::PutBImm);
    assert_eq!(call.operands, vec![Operand::Address(0x4000)]);
    assert!(writer_invoke(0, Some(WriterOp::PutBImm), &[0x4000]).is_none());
    assert!(writer_invoke(1, None, &[]).is_none());
    assert!(writer_invoke(1, Some(WriterOp::PutBImm), &[]).is_none());
}

#[test]
fn arguments_of_generated_calls_follow_their_count() {
    let raw = [2, ARG_KIND_REGISTER, 3, ARG_KIND_ADDRESS, 0x4000];
    assert_eq!(
        decode_gum_arguments(&raw).unwrap(),
        vec![GumArgument::Register(3), GumArgument::Address(0x4000)]
    );
    assert!(decode_gum_arguments(&raw[..4]).is_none());
    assert!(decode_gum_arguments(&[1, 9, 0]).is_none());
    assert!(decode_gum_arguments(&[]).is_none());
    assert_eq!(decode_gum_arguments(&[0]), Some(vec![]));
}

fn codes() -> Arm64Codes {
    let mut x = [0; 31];
    let mut w = [0; 31];
    for i in 0..31 {
        x[i] = 100 + i as u32;
        w[i] = 200 + i as u32;
    }
    Arm64Codes {
        x,
        w,
        special: [1; 9],
        s0: 300,
        d0: 400,
        q0: 500,
        conditions: [7; 16],
        index_modes: [8; 3],
    }
}

#[test]
fn registers_have_distinct_names() {
    let enums = writer_enums(&codes());
    let find = |name: &str| {
        enums.registers.iter().find(|entry| entry.0 == name).map(|entry| entry.1)
    };
    assert_eq!(find("x3"), Some(103));
    assert_eq!(find("w30"), Some(230));
    assert_eq!(find("q2"), Some(502));
    assert_eq!(enums.conditions.len(), 16);
    assert_eq!(enums.index_modes.len(), 3);
    for (i, left) in enums.registers.iter().enumerate() {
        assert!(enums.registers[i + 1..].iter().all(|right| right.0 != left.0));
    }
}

#[test]
fn writers_and_relocators_need_their_addresses() {
    assert!(standalone_writer_create(0, 1, None).is_none());
    let writer = standalone_writer_create(0x1000, 5, Some(0x2000)).unwrap();
    assert_eq!((writer.handle, writer.pc), (5, Some(0x2000)));
    assert_eq!(
        standalone_writer_reset(5, 0x3000, None, None),
        WriterResetStep::Flush
    );
    assert_eq!(
        standalone_writer_reset(5, 0x3000, None, Some(true)),
        WriterResetStep::Replace { code_address: 0x3000, pc: None }
    );
    assert_eq!(
        standalone_writer_reset(0, 0x3000, None, None),
        WriterResetStep::Refuse
    );
    assert!(RelocatorHandle::create(1, 0, 5).is_none());
    let mut handle = RelocatorHandle::create(1, 0x4000, 5).unwrap();
    assert_eq!(handle.input_start, 0x4000);
    let call = relocator_invoke(9, Some(RelocatorOp::ReadOne), &[]).unwrap();
    assert_eq!(call, RelocatorCall::ReadOne);
    assert_eq!(handle.finish(call, 0, 4).stored, Some(4));
    let input = relocator_invoke(9, Some(RelocatorOp::Input), &[]).unwrap();
    assert_eq!(handle.finish(input, 0, 0).stored, Some(0x4004));
    assert!(relocator_invoke(0, Some(RelocatorOp::ReadOne), &[]).is_none());
    let base = writer_finish(WriterOp::Base, 0, 0x5000);
    assert_eq!((base.status, base.stored), (1, Some(0x5000)));
    assert!(REFUSED < 0);
}
