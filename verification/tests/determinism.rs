use jasp::compiler::Compiler;
use jasp::jasp_parser::parse;

#[test]
fn compiling_twice_gives_the_same_tree() {
    let source = "(vec 1 2.5 \"a\" :k) (- 10 1 2) ()";
    let first = Compiler::new().compile_ast(parse(source).unwrap()).unwrap();
    let second = Compiler::new().compile_ast(parse(source).unwrap()).unwrap();
    assert_eq!(first, second);
}
