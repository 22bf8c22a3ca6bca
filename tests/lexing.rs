use mclang::args::Args;
use mclang::constants::TokenType;
use mclang::lexer::{find_col, lex, lex_line, replace_pair, unescape};

fn args() -> Args {
    Args {
        in_file: String::new(),
        out_file: String::new(),
        compile: false,
        interpret: false,
        run: false,
        quiet: true,
        search_dirs: Vec::new(),
        unsaf: false,
        optimisation: String::from("0"),
    }
}

#[test]
fn line_words_and_columns() {
    let t = lex_line("  dup  42 +");
    assert_eq!(t.len(), 3);
    assert_eq!((t[0].0, t[0].1.as_str(), t[0].2), (2, "dup", TokenType::Word));
    assert_eq!((t[1].0, t[1].1.as_str()), (7, "42"));
    assert_eq!((t[2].0, t[2].1.as_str()), (10, "+"));
}

#[test]
fn line_strings_chars_and_comments() {
    let t = lex_line("\"hi\\n there\" 'a' // rest");
    assert_eq!(t.len(), 2);
    assert_eq!(t[0].1, "hi\n there");
    assert_eq!(t[0].2, TokenType::String);
    assert_eq!(t[1].1, "a");
    assert_eq!(t[1].2, TokenType::Char);
    assert_eq!(t[1].0, 13);
    assert_eq!(lex_line("").len(), 0);
    assert_eq!(lex_line("   ").len(), 0);
    assert_eq!(lex_line("\"\"").len(), 0);
    let t = lex_line("\"say \\\"x\\\"\"");
    assert_eq!(t[0].1, "say \"x\"");
}

#[test]
fn lex_marks_numbers_and_lines() {
    let toks = lex("1 two\n  +3\r\nfoo", "m.mcl", &args());
    assert_eq!(toks.len(), 4);
    assert_eq!(toks[0].typ, TokenType::Int);
    assert_eq!((toks[0].line, toks[0].col), (1, 0));
    assert_eq!(toks[1].typ, TokenType::Word);
    assert_eq!(toks[2].typ, TokenType::Int);
    assert_eq!((toks[2].line, toks[2].col), (2, 2));
    assert_eq!(toks[3].line, 4);
    assert_eq!(toks[3].file, "m.mcl");
}

#[test]
fn find_col_stops_where_predicate_holds() {
    assert_eq!(find_col("ab cd", 0, |c, _| c == ' '), 2);
    assert_eq!(find_col("abcd", 1, |c, _| c == 'z'), 4);
    assert_eq!(find_col("a\\\"b\"", 0, |c, last| c == '"' && last != '\\'), 4);
}

#[test]
fn escapes_are_read() {
    assert_eq!(unescape("a\\tb\\0"), "a\tb\0");
    assert_eq!(replace_pair("xaby", 'a', 'b', "--"), "x--y");
    assert_eq!(replace_pair("aab", 'a', 'b', "Z"), "aZ");
}
