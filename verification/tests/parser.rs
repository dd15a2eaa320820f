use poetic::instruction::Instruction;
use poetic::parser::{ParseError, Parser};

#[test]
fn test_intermediate_len() {
    // parse correct length
    for i in 1..10 {
        let intermediate = Parser::parse_intermediate(&str::repeat("a", i));
        assert_eq!(intermediate[0], i as u8);
    }
}

#[test]
fn test_intermediate_10_as_0() {
    // parse 10 as 0
    let intermediate = Parser::parse_intermediate(&str::repeat("a", 10));
    assert_eq!(intermediate[0], 0);
}

#[test]
fn test_intermediate_11_as_1_1() {
    // parse 11 as 1 and 1
    let intermediate = Parser::parse_intermediate(&str::repeat("a", 11));
    assert_eq!(intermediate[0], 1);
    assert_eq!(intermediate[1], 1);
}

#[test]
fn test_intermediate_12345_as_1_2_3_4_5() {
    // parse 12345 as 1,2,3,4,5
    let intermediate = Parser::parse_intermediate(&str::repeat("a", 12345));
    assert_eq!(intermediate[0], 1);
    assert_eq!(intermediate[1], 2);
    assert_eq!(intermediate[2], 3);
    assert_eq!(intermediate[3], 4);
    assert_eq!(intermediate[4], 5);
}

#[test]
fn test_intermediate_ignore_apostrophe() {
    // parse 1 as 1 ignoring apostrophe
    let intermediate = Parser::parse_intermediate("'a'");
    assert_eq!(intermediate[0], 1);
}

#[test]
fn test_intermediate_non_alpha_as_whitespace() {
    // parse 1 as 1
    let intermediate = Parser::parse_intermediate("1a");
    assert_eq!(intermediate[0], 1);

    let intermediate = Parser::parse_intermediate("1a1a");
    assert_eq!(intermediate[0], 1);
    assert_eq!(intermediate[1], 1);
}

#[test]
fn test_intermediate_28_as_2_8() {
    let intermediate = Parser::parse_intermediate(&str::repeat("a", 28));
    assert_eq!(intermediate[0], 2);
    assert_eq!(intermediate[1], 8);
}

#[test]
fn test_parse_argument_0_as_10() {
    // len 30 -> 3,0 -> 3 = INC with arg 0 should be parsed as 10
    let intermediate = Parser::parse_intermediate(&str::repeat("a", 30));
    let instructions = Parser::parse_instructions(&intermediate);
    assert!(instructions.is_ok());
    assert_eq!(instructions.unwrap()[0], Instruction::INC(10));
}

#[test]
fn test_instruction_if_eif() {
    let intermediate = vec![1, 2];
    let instructions = Parser::parse_instructions(&intermediate);
    assert!(instructions.is_ok());
    let instructions = instructions.unwrap();
    assert_eq!(instructions[0], Instruction::IF);
    assert_eq!(instructions[1], Instruction::EIF);
}

#[test]
fn test_instruction_missing_eif() {
    let intermediate = vec![1];
    let instructions = Parser::parse_instructions(&intermediate);
    assert!(instructions.is_err());
    assert_eq!(instructions.unwrap_err(), ParseError::MissingEif);
}

#[test]
fn test_instruction_missing_if() {
    let intermediate = vec![2];
    let instructions = Parser::parse_instructions(&intermediate);
    assert!(instructions.is_err());
    assert_eq!(instructions.unwrap_err(), ParseError::MissingIf);
}

#[test]
fn test_instruction_inc() {
    let intermediate = vec![3, 1];
    let instructions = Parser::parse_instructions(&intermediate);
    assert!(instructions.is_ok());
    assert_eq!(instructions.unwrap()[0], Instruction::INC(1));
}

#[test]
fn test_instruction_inc_needs_arg() {
    // INC Instruction needs an argument
    let intermediate = vec![3];
    let instructions = Parser::parse_instructions(&intermediate);
    assert!(instructions.is_err());
    assert_eq!(instructions.unwrap_err(), ParseError::NeedsArgument(3));
}

#[test]
fn test_instruction_dec() {
    let intermediate = vec![4, 1];
    let instructions = Parser::parse_instructions(&intermediate);
    assert!(instructions.is_ok());
    assert_eq!(instructions.unwrap()[0], Instruction::DEC(1));
}

#[test]
fn test_instruction_dec_needs_arg() {
    // DEC Instruction needs an argument
    let intermediate = vec![4];
    let instructions = Parser::parse_instructions(&intermediate);
    assert!(instructions.is_err());
    assert_eq!(instructions.unwrap_err(), ParseError::NeedsArgument(4));
}

#[test]
fn test_instruction_fwd() {
    let intermediate = vec![5, 1];
    let instructions = Parser::parse_instructions(&intermediate);
    assert!(instructions.is_ok());
    assert_eq!(instructions.unwrap()[0], Instruction::FWD(1));
}

#[test]
fn test_instruction_fwd_needs_arg() {
    // FWD Instruction needs an argument
    let intermediate = vec![5];
    let instructions = Parser::parse_instructions(&intermediate);
    assert!(instructions.is_err());
    assert_eq!(instructions.unwrap_err(), ParseError::NeedsArgument(5));
}

#[test]
fn test_instruction_bak() {
    let intermediate = vec![6, 1];
    let instructions = Parser::parse_instructions(&intermediate);
    assert!(instructions.is_ok());
    assert_eq!(instructions.unwrap()[0], Instruction::BAK(1));
}

#[test]
fn test_instruction_bak_needs_arg() {
    // BAK Instruction needs an argument
    let intermediate = vec![6];
    let instructions = Parser::parse_instructions(&intermediate);
    assert!(instructions.is_err());
    assert_eq!(instructions.unwrap_err(), ParseError::NeedsArgument(6));
}

#[test]
fn test_instruction_out() {
    let intermediate = vec![7];
    let instructions = Parser::parse_instructions(&intermediate);
    assert!(instructions.is_ok());
    assert_eq!(instructions.unwrap()[0], Instruction::OUT);
}

#[test]
fn test_instruction_in() {
    let intermediate = vec![8];
    let instructions = Parser::parse_instructions(&intermediate);
    assert!(instructions.is_ok());
    assert_eq!(instructions.unwrap()[0], Instruction::IN);
}

#[test]
fn test_instruction_rnd() {
    let intermediate = vec![9];
    let instructions = Parser::parse_instructions(&intermediate);
    assert!(instructions.is_ok());
    assert_eq!(instructions.unwrap()[0], Instruction::RND);
}

#[test]
fn test_instruction_end10() {
    let intermediate = vec![10];
    let instructions = Parser::parse_instructions(&intermediate);
    assert!(instructions.is_ok());
    assert_eq!(instructions.unwrap()[0], Instruction::END);
}

#[test]
fn test_instruction_end0() {
    let intermediate = vec![0];
    let instructions = Parser::parse_instructions(&intermediate);
    assert!(instructions.is_ok());
    assert_eq!(instructions.unwrap()[0], Instruction::END);
}

#[test]
fn test_parser_split_digits() {
    let digits = Parser::split_digits(568764567);
    assert_eq!(digits, vec![5, 6, 8, 7, 6, 4, 5, 6, 7]);
}

#[test]
fn test_parser_transform_char() {
    let tests = vec![('a', Some('a')), ('9', Some(' ')), ('\'', None), ('F', Some('F'))];

    for test in tests {
        let result = Parser::transform_char(test.0);
        assert_eq!(result, test.1);
    }
}

#[test]
fn test_instruction_unknown_digit() {
    let intermediate = vec![11];
    let instructions = Parser::parse_instructions(&intermediate);
    assert!(instructions.is_err());
    assert_eq!(instructions.unwrap_err(), ParseError::UnknownInstruction(11));
}

#[test]
fn test_parse_empty_source() {
    let instructions = Parser::parse("");
    assert!(instructions.is_ok());
    assert_eq!(instructions.unwrap(), vec![]);
}

#[test]
fn test_parse_full_pipeline() {
    // one word of 3 letters selects INC, one of 2 letters is its operand
    let instructions = Parser::parse("abc de");
    assert!(instructions.is_ok());
    assert_eq!(instructions.unwrap(), vec![Instruction::INC(2)]);
}
