use poetic::instruction::Instruction;
use poetic::interpreter::Interpreter;
use poetic::io::SliceInput;
use poetic::memory::Memory;
use poetic::rng::StepRandom;

#[test]
fn test_interpret_inc() {
    for i in 1..10 {
        let instructions = vec![Instruction::INC(i)];
        let mut interpreter = Interpreter::new(instructions);
        interpreter.step();
        interpreter.memory.set_memory_pointer(0);
        assert_eq!(interpreter.memory.get_memory_value(), i);
    }
}

#[test]
fn test_interpret_inc_wrapping() {
    let instructions = vec![Instruction::INC(255), Instruction::INC(1)];
    let mut interpreter = Interpreter::new(instructions);
    interpreter.run();
    interpreter.memory.set_memory_pointer(0);
    assert_eq!(interpreter.memory.get_memory_value(), 0);
}

#[test]
fn test_interpret_dec() {
    for i in 1..10 {
        // inc and dec same amount has to be 0
        let instructions = vec![Instruction::INC(i), Instruction::DEC(i)];
        let mut interpreter = Interpreter::new(instructions);
        interpreter.run();
        interpreter.memory.set_memory_pointer(0);
        assert_eq!(interpreter.memory.get_memory_value(), 0);
    }
}

#[test]
fn test_interpret_dec_wrapping() {
    let instructions = vec![Instruction::DEC(1)];
    let mut interpreter = Interpreter::new(instructions);
    interpreter.run();
    interpreter.memory.set_memory_pointer(0);
    assert_eq!(interpreter.memory.get_memory_value(), 255);
}

#[test]
fn test_interpret_inc_fixed() {
    for i in 1..10 {
        let instructions = vec![Instruction::INC(i)];
        let mut interpreter = Interpreter::new(instructions).with_fixed_size_memory::<10>();
        assert_eq!(interpreter.memory.get_memory_size(), 10);
        interpreter.step();
        interpreter.memory.set_memory_pointer(0);
        assert_eq!(interpreter.memory.get_memory_value(), i);
    }
}

#[test]
fn test_interpret_inc_wrapping_fixed() {
    let instructions = vec![Instruction::INC(255), Instruction::INC(1)];
    let mut interpreter = Interpreter::new(instructions).with_fixed_size_memory::<10>();
    assert_eq!(interpreter.memory.get_memory_size(), 10);
    interpreter.run();
    interpreter.memory.set_memory_pointer(0);
    assert_eq!(interpreter.memory.get_memory_value(), 0);
}

#[test]
fn test_interpret_dec_fixed() {
    for i in 1..10 {
        // inc and dec same amount has to be 0
        let instructions = vec![Instruction::INC(i), Instruction::DEC(i)];
        let mut interpreter = Interpreter::new(instructions).with_fixed_size_memory::<10>();
        assert_eq!(interpreter.memory.get_memory_size(), 10);
        interpreter.run();
        interpreter.memory.set_memory_pointer(0);
        assert_eq!(interpreter.memory.get_memory_value(), 0);
    }
}

#[test]
fn test_interpret_dec_wrapping_fixed() {
    let instructions = vec![Instruction::DEC(1)];
    let mut interpreter = Interpreter::new(instructions).with_fixed_size_memory::<10>();
    assert_eq!(interpreter.memory.get_memory_size(), 10);
    interpreter.run();
    interpreter.memory.set_memory_pointer(0);
    assert_eq!(interpreter.memory.get_memory_value(), 255);
}

#[test]
fn test_interpret_fwd() {
    for i in 1..250 {
        let instructions = vec![Instruction::FWD(i)];
        let mut interpreter = Interpreter::new(instructions);
        interpreter.run();
        assert_eq!(interpreter.memory.get_memory_pointer(), i as usize);
    }
}

#[test]
fn test_interpret_bak() {
    for i in 1..250 {
        let instructions = vec![Instruction::FWD(i), Instruction::BAK(i)];
        let mut interpreter = Interpreter::new(instructions);
        interpreter.run();
        assert_eq!(interpreter.memory.get_memory_pointer(), 0);
    }
}

#[test]
fn test_interpret_fwd_fixed() {
    for i in 1..250 {
        let instructions = vec![Instruction::FWD(i)];
        let mut interpreter = Interpreter::new(instructions).with_fixed_size_memory::<30000>();
        interpreter.run();
        assert_eq!(interpreter.memory.get_memory_pointer(), i as usize);
    }
}

#[test]
fn test_interpret_bak_fixed() {
    for i in 1..250 {
        let instructions = vec![Instruction::FWD(i), Instruction::BAK(i)];
        let mut interpreter = Interpreter::new(instructions).with_fixed_size_memory::<30000>();
        interpreter.run();
        assert_eq!(interpreter.memory.get_memory_pointer(), 0);
    }
}

#[test]
fn test_interpret_bak_wrapping() {
    let instructions = vec![Instruction::BAK(1)];
    let mut interpreter = Interpreter::new(instructions);
    interpreter.run();
    assert_eq!(
        interpreter.memory.get_memory_pointer(),
        interpreter.memory.get_memory_size() - 1
    );
}

#[test]
fn test_interpret_bak_wrapping_fixed() {
    let instructions = vec![Instruction::BAK(1)];
    let mut interpreter = Interpreter::new(instructions).with_fixed_size_memory::<20000>();
    interpreter.run();
    assert_eq!(
        interpreter.memory.get_memory_pointer(),
        interpreter.memory.get_memory_size() - 1
    );
}

#[test]
fn test_interpret_out() {
    let instructions = vec![Instruction::INC(b'H'), Instruction::OUT];
    let mut interpreter = Interpreter::new(instructions);
    interpreter.run();
    let written: String = interpreter.output.text.iter().collect();
    assert_eq!(written, "H");
}

#[test]
fn test_interpret_out_different() {
    let instructions = vec![Instruction::INC(b'H'), Instruction::OUT];
    let mut interpreter = Interpreter::new(instructions);
    interpreter.run();
    let written: String = interpreter.output.text.iter().collect();
    assert_eq!(written, "H");
    assert_ne!(written, "A");
}

#[test]
fn test_interpret_out_to_string() {
    let instructions = vec![
        Instruction::INC(b'H'),
        Instruction::OUT,
        Instruction::FWD(1),
        Instruction::INC(b'A'),
        Instruction::OUT,
    ];
    let mut interpreter = Interpreter::new(instructions);
    interpreter.run();

    let written: String = interpreter.output.text.iter().collect();
    assert_eq!(written, "HA");
}

#[test]
fn test_interpret_in() {
    let input = SliceInput::new(vec![b'A', b'B', b'C']);

    let instructions = vec![
        Instruction::IN,
        Instruction::FWD(1),
        Instruction::IN,
        Instruction::FWD(1),
        Instruction::IN,
    ];
    let mut interpreter = Interpreter::new(instructions).with_input(input);
    interpreter.run();

    interpreter.memory.set_memory_pointer(0);
    assert_eq!(interpreter.memory.get_memory_value(), b'A');
    interpreter.memory.set_memory_pointer(1);
    assert_eq!(interpreter.memory.get_memory_value(), b'B');
    interpreter.memory.set_memory_pointer(2);
    assert_eq!(interpreter.memory.get_memory_value(), b'C');
}

#[test]
fn test_interpret_in_fixed() {
    let input = SliceInput::new(vec![b'A', b'B', b'C']);

    let instructions = vec![
        Instruction::IN,
        Instruction::FWD(1),
        Instruction::IN,
        Instruction::FWD(1),
        Instruction::IN,
    ];
    let mut interpreter = Interpreter::new(instructions)
        .with_input(input)
        .with_fixed_size_memory::<200>();
    interpreter.run();

    interpreter.memory.set_memory_pointer(0);
    assert_eq!(interpreter.memory.get_memory_value(), b'A');
    interpreter.memory.set_memory_pointer(1);
    assert_eq!(interpreter.memory.get_memory_value(), b'B');
    interpreter.memory.set_memory_pointer(2);
    assert_eq!(interpreter.memory.get_memory_value(), b'C');
}

#[test]
fn test_not_ended() {
    let instructions = vec![Instruction::INC(1)];
    let interpreter = Interpreter::new(instructions);
    assert!(!interpreter.ended);
}

#[test]
fn test_ended_after_run() {
    let instructions = vec![Instruction::INC(1)];
    let mut interpreter = Interpreter::new(instructions);
    interpreter.run();
    assert!(interpreter.ended);
}

#[test]
fn test_interpret_end() {
    let instructions = vec![Instruction::END];
    let mut interpreter = Interpreter::new(instructions);
    interpreter.run();
    assert!(interpreter.ended);
}

#[test]
fn test_interpret_if() {
    let instructions = vec![
        Instruction::IF,
        Instruction::INC(1),
        Instruction::EIF,
        Instruction::FWD(1),
        Instruction::INC(23),
        Instruction::END,
    ];
    let mut interpreter = Interpreter::new(instructions);
    interpreter.run();

    interpreter.memory.set_memory_pointer(0);
    assert_eq!(interpreter.memory.get_memory_value(), 0);

    interpreter.memory.set_memory_pointer(1);
    assert_eq!(interpreter.memory.get_memory_value(), 23);

    assert!(interpreter.ended);
}

#[test]
fn test_interpret_if_instruction_pointer() {
    let instructions = vec![
        Instruction::DEC(1),
        Instruction::IF,
        Instruction::IF,
        Instruction::DEC(1),
        Instruction::EIF,
        Instruction::FWD(1),
        Instruction::DEC(1),
        Instruction::EIF,
    ];
    let mut interpreter = Interpreter::new(instructions);
    assert_eq!(interpreter.instruction_pointer, 0);
    interpreter.step();
    assert_eq!(interpreter.instruction_pointer, 1);

    // the loop never leaves these three instructions
    for _ in 0..100 {
        interpreter.step();
        assert_eq!(interpreter.instruction_pointer, 2);
        interpreter.step();
        assert_eq!(interpreter.instruction_pointer, 3);
        interpreter.step();
        assert_eq!(interpreter.instruction_pointer, 4);
    }
}

#[test]
fn test_interpret_eif() {
    let instructions = vec![
        Instruction::INC(1),
        Instruction::IF,
        Instruction::FWD(1),
        Instruction::INC(5),
        Instruction::BAK(1),
        Instruction::DEC(1),
        Instruction::EIF,
        Instruction::END,
    ];
    let mut interpreter = Interpreter::new(instructions);
    interpreter.run();

    interpreter.memory.set_memory_pointer(0);
    assert_eq!(interpreter.memory.get_memory_value(), 0);

    interpreter.memory.set_memory_pointer(1);
    assert_eq!(interpreter.memory.get_memory_value(), 5);

    assert!(interpreter.ended);
}

#[test]
fn jump_if_zero_should_set_instruction_pointer_on_zero() {
    let instructions = vec![Instruction::JIZ(5)];

    let mut interpreter = Interpreter::new(instructions);

    // nothing run yet
    assert_eq!(interpreter.instruction_pointer, 0);

    interpreter.run();
    // should be 5
    assert_eq!(interpreter.instruction_pointer, 5);
}

#[test]
fn jump_if_zero_should_not_set_instruction_pointer_on_non_zero_value() {
    let instructions = vec![Instruction::INC(1), Instruction::JIZ(5)];

    let mut interpreter = Interpreter::new(instructions);

    // nothing run yet
    assert_eq!(interpreter.instruction_pointer, 0);
    assert_eq!(interpreter.memory.get_memory_value(), 0);

    interpreter.step();
    // ip should be 1
    assert_eq!(interpreter.instruction_pointer, 1);
    // and memory at 1
    assert_eq!(interpreter.memory.get_memory_value(), 1);

    interpreter.step();

    // ip should be 2
    assert_eq!(interpreter.instruction_pointer, 2);
}

#[test]
fn jump_not_zero_should_not_set_instruction_pointer_on_non_zero_value() {
    let instructions = vec![Instruction::JNZ(5)];

    let mut interpreter = Interpreter::new(instructions);

    // nothing run yet
    assert_eq!(interpreter.instruction_pointer, 0);

    interpreter.run();
    // should be 1
    assert_eq!(interpreter.instruction_pointer, 1);
}

#[test]
fn jump_not_zero_should_set_instruction_pointer_on_zero_value() {
    let instructions = vec![Instruction::INC(1), Instruction::JNZ(5)];

    let mut interpreter = Interpreter::new(instructions);

    // nothing run yet
    assert_eq!(interpreter.instruction_pointer, 0);
    assert_eq!(interpreter.memory.get_memory_value(), 0);

    interpreter.step();
    // ip should be 1
    assert_eq!(interpreter.instruction_pointer, 1);
    // and memory at 1
    assert_eq!(interpreter.memory.get_memory_value(), 1);

    interpreter.step();

    // ip should be 5
    assert_eq!(interpreter.instruction_pointer, 5);
}

#[test]
fn rnd_should_set_value() {
    let random_value: u8 = 36;
    let rng = StepRandom::new(random_value as u64, 0);
    let instructions = vec![Instruction::RND];

    let mut interpreter = Interpreter::new(instructions).with_rng(rng);

    // nothing run yet
    assert_eq!(interpreter.memory.get_memory_value(), 0);

    interpreter.step();

    assert_eq!(interpreter.memory.get_memory_value(), random_value);
}

#[test]
fn rnd_should_set_value_with_fixed_memory() {
    let random_value: u8 = 36;
    let rng = StepRandom::new(random_value as u64, 0);
    let instructions = vec![Instruction::RND];

    let mut interpreter = Interpreter::new(instructions)
        .with_rng(rng)
        .with_fixed_size_memory::<200>();

    // nothing run yet
    assert_eq!(interpreter.memory.get_memory_value(), 0);

    interpreter.step();

    assert_eq!(interpreter.memory.get_memory_value(), random_value);
}

#[test]
fn jmp_should_set_instruction_pointer() {
    let instructions = vec![Instruction::JMP(9)];

    let mut interpreter = Interpreter::new(instructions);
    // nothing run yet
    assert_eq!(interpreter.instruction_pointer, 0);

    interpreter.step();
    // ip should be 9
    assert_eq!(interpreter.instruction_pointer, 9);
}

#[test]
fn growable_tape_doubles_and_keeps_values() {
    // write a value, move past the end: the tape doubles and keeps the value
    let instructions = vec![Instruction::INC(7), Instruction::FWD(40)];
    let mut interpreter = Interpreter::new(instructions);
    assert_eq!(interpreter.memory.get_memory_size(), 32);
    interpreter.run();
    assert_eq!(interpreter.memory.get_memory_size(), 64);
    assert_eq!(interpreter.memory.get_memory_pointer(), 40);
    assert_eq!(interpreter.memory.raw_memory()[0], 7);
}

#[test]
fn random_source_drives_rnd_through_the_machine() {
    // a counting source: each RND stores the next counter byte
    let rng = StepRandom::new(10, 1);
    let instructions = vec![Instruction::RND, Instruction::FWD(1), Instruction::RND];
    let mut interpreter = Interpreter::new(instructions).with_rng(rng);
    interpreter.run();
    interpreter.memory.set_memory_pointer(0);
    assert_eq!(interpreter.memory.get_memory_value(), 10);
    interpreter.memory.set_memory_pointer(1);
    assert_eq!(interpreter.memory.get_memory_value(), 11);
}

#[test]
fn input_exhaustion_leaves_cell_unchanged() {
    let input = SliceInput::new(vec![b'Z']);
    let instructions = vec![
        Instruction::IN,
        Instruction::IN,
        Instruction::FWD(1),
        Instruction::IN,
    ];
    let mut interpreter = Interpreter::new(instructions).with_input(input);
    interpreter.run();
    interpreter.memory.set_memory_pointer(0);
    assert_eq!(interpreter.memory.get_memory_value(), b'Z');
    interpreter.memory.set_memory_pointer(1);
    assert_eq!(interpreter.memory.get_memory_value(), 0);
}
