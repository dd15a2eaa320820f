use poetic::interpreter::Interpreter;
use poetic::optimizer::{Optimize, Optimizer};
use poetic::parser::Parser;

const HELLO_WORLD: &str = "inc aaaaaaaaa inc aaaaaaaaa inc aaaaaaaaa inc aaaaaaaaa inc aaaaaaaaa inc aaaaaaaaa inc aaaaaaaaa inc aaaaaaaaa outputa inc aaaaaaaaa inc aaaaaaaaa inc aaaaaaaaa inc aa outputa inc aaaaaaa outputa outputa inc aaa outputa decc aaaaaaaaa decc aaaaaaaaa decc aaaaaaaaa decc aaaaaaaaa decc aaaaaaaaa decc aaaaaaaaa decc aaaaaaaaa decc aaaaaaaaa decc aaaaaaa outputa inc aaaaaaaaa inc aaaaaaaaa inc aaaaaaaaa inc aaaaaaaaa inc aaaaaaaaa inc aaaaaaaaa inc a outputa inc aaaaaaaaa inc aaaaaaaaa inc aaaaaa outputa inc aaa outputa decc aaaaaa outputa decc aaaaaaaa outputa decc aaaaaaaaa decc aaaaaaaaa decc aaaaaaaaa decc aaaaaaaaa decc aaaaaaaaa decc aaaaaaaaa decc aaaaaaaaa decc aaaa outputa endprogram";

#[test]
fn hello_world() {
    let instructions = Parser::parse(HELLO_WORLD);
    assert!(instructions.is_ok());
    let instructions = instructions.unwrap();
    let mut interpreter = Interpreter::new(instructions);
    interpreter.run();

    let result: String = interpreter.output.text.iter().collect();
    let expected = "Hello World!";

    assert_eq!(result, expected);
}

#[test]
fn hello_world_fixed_memory() {
    let instructions = Parser::parse(HELLO_WORLD);
    assert!(instructions.is_ok());
    let instructions = instructions.unwrap();
    let mut interpreter = Interpreter::new_fixed_size::<1>(instructions);
    interpreter.run();

    let result: String = interpreter.output.text.iter().collect();
    let expected = "Hello World!";

    assert_eq!(result, expected);
}

/// this only runs with fixed memory since it wraps around
#[test]
fn hello_world_shortest_fixed_memory() {
    let input = "inc a a decc aa fwdfw a decc a a fwdfw aa inc a fwdfw a decc aaaaa bakbak aa ei bakbak a decc aa bakbak a decc aaa ei fwdfw a decc a outputa fwdfw aaa inc a outputa fwdfw aa outputa outputa inc aaa a outputa fwdfw a ei bakbak aaaa outputa inc a inc aa outputa decc aaaaaa outputa bakbak aa decc a outputa fwdfw aaaa inc a outputa";
    let instructions = Parser::parse(input);
    let instructions = instructions.unwrap();
    let mut interpreter = Interpreter::new_fixed_size::<100>(instructions);
    interpreter.run();

    let result: String = interpreter.output.text.iter().collect();
    let expected = "Hello, World!";

    assert_eq!(result, expected);
}

#[test]
fn hello_world_optimized() {
    let instructions = Parser::parse(HELLO_WORLD).unwrap();
    let optimized = Optimizer::new().optimize(&instructions);
    let mut interpreter = Interpreter::new(optimized);
    interpreter.run();

    let result: String = interpreter.output.text.iter().collect();
    assert_eq!(result, "Hello World!");
}

#[test]
fn hello_world_optimized_fixed_memory() {
    let instructions = Parser::parse(HELLO_WORLD).unwrap();
    let optimized = Optimizer::new().optimize(&instructions);
    let mut interpreter = Interpreter::new_fixed_size::<1>(optimized);
    interpreter.run();

    let result: String = interpreter.output.text.iter().collect();
    assert_eq!(result, "Hello World!");
}
