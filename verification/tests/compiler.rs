use rlox::compiler::Compiler;

fn listing(source: &str) -> String {
    let mut compiler = Compiler::default();
    String::from_utf8(compiler.compile(source.to_string())).unwrap()
}

#[test]
fn listing_of_a_declaration() {
    assert_eq!(
        listing("var x = 12.5;\n"),
        "   0 36 'var'\n   | 19 'x'\n   | 13 '='\n   | 21 '12.5'\n   |  8 ';'\n   1 39 ''\n"
    );
}

#[test]
fn listing_of_nothing_is_eof() {
    assert_eq!(listing(""), "   0 39 ''\n");
    assert_eq!(listing("// only a comment"), "   0 39 ''\n");
}

#[test]
fn listing_shows_errors_without_text() {
    assert_eq!(listing("#\n\"open"), "   0 38 ''\n   1 38 ''\n   | 39 ''\n");
}

#[test]
fn listing_marks_each_new_line() {
    assert_eq!(
        listing("print 1;\nprint \"a\nb\";\n\n(x)"),
        "   0 31 'print'\n   | 21 '1'\n   |  8 ';'\n   1 31 'print'\n   2 20 '\"a\nb\"'\n   |  8 ';'\n   4  0 '('\n   | 19 'x'\n   |  1 ')'\n   | 39 ''\n"
    );
}

#[test]
fn compiling_again_starts_over() {
    let mut compiler = Compiler::default();
    let first = compiler.compile("a\nb".to_string());
    let second = compiler.compile("a\nb".to_string());
    assert_eq!(first, second);
    assert_eq!(String::from_utf8(first).unwrap(), "   0 19 'a'\n   1 19 'b'\n   | 39 ''\n");
}
