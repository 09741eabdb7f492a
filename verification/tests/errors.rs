//! Programs that are refused, with the code of the error.
use lumo::diagnostics::Diagnostic;
use lumo::lexer::lex;
use lumo::loader::Loader;
use lumo::parser::parse;
use lumo::span::{FileId, SourceMap};
use lumo::typeck::check;

fn compile(src: &str) -> Result<(), Diagnostic> {
    let tokens = lex(src, FileId(0))?;
    let program = parse(tokens)?;
    check(&program)
}

fn refused(src: &str, code: &str) {
    let d = match compile(src) {
        Ok(()) => panic!("accepted: {}", src),
        Err(d) => d,
    };
    assert_eq!(d.code, Some(code), "{}", d.message);
    let mut sources = SourceMap::new();
    sources.add("test.lum".to_string(), src.to_string());
    assert!(d.can_render(&sources));
    let shown = d.render(&sources);
    assert!(shown.starts_with(&format!("error[{}]: ", code)));
}

fn accepted(src: &str) {
    if let Err(d) = compile(src) {
        panic!("{}: {}", d.code.unwrap_or(""), d.message);
    }
}

#[test]
fn err_undefined_var() {
    refused("fn main() { return x; }", "E0101");
}

#[test]
fn err_undefined_fn() {
    refused("fn main() { return f(1); }", "E0102");
}

#[test]
fn err_arity() {
    refused("fn f(a: int) -> int { return a; } fn main() { return f(1, 2); }", "E0104");
}

#[test]
fn err_parse() {
    refused("fn main() { let = 1; }", "E0002");
}

#[test]
fn err_no_main() {
    let d = compile("fn f() { return 1; }").unwrap_err();
    assert_eq!(d.code, Some("E0100"));
    assert_eq!(d.span, None);
}

#[test]
fn err_cond_type() {
    refused("fn main() { if (1) { return 1; } return 0; }", "E0201");
}

#[test]
fn err_type_mismatch() {
    refused("fn main() { let x = 1; x = true; return 0; }", "E0200");
}

#[test]
fn err_return_bool() {
    refused("fn main() { return true; }", "E0202");
}

#[test]
fn err_arg_type() {
    refused("fn f(a: int) -> int { return a; } fn main() { return f(true); }", "E0200");
}

#[test]
fn err_unknown_type() {
    refused("fn f(a: blah) -> int { return 1; } fn main() { return 0; }", "E0300");
}

#[test]
fn err_dup_param() {
    refused("fn f(a: int, a: int) -> int { return a; } fn main() { return 0; }", "E0301");
}

#[test]
fn err_mix_types() {
    refused("fn main() { let x = 1 + 2.0; return 0; }", "E0200");
}

#[test]
fn err_break_outside() {
    refused("fn main() { break; return 0; }", "E0203");
    refused("fn main() { continue; return 0; }", "E0203");
}

#[test]
fn err_str_arith() {
    refused("fn main() { let s = \"a\" - \"b\"; return 0; }", "E0200");
}

#[test]
fn err_unterminated_string() {
    refused("fn main() { print \"abc", "E0004");
}

#[test]
fn err_conv_type() {
    refused("fn main() { return int(true); }", "E0200");
}

#[test]
fn err_reserved_name() {
    refused("fn len(a: int) -> int { return a; } fn main() { return 0; }", "E0302");
}

#[test]
fn err_out_of_scope() {
    refused("fn main() { if (true) { let x = 1; } return x; }", "E0101");
}

#[test]
fn err_index_type() {
    refused("fn main() { let a = [1]; return a[true]; }", "E0200");
}

#[test]
fn err_index_nonarray() {
    refused("fn main() { let a = 1; return a[0]; }", "E0205");
}

#[test]
fn err_array_mixed() {
    refused("fn main() { let a = [1, true]; return 0; }", "E0200");
}

#[test]
fn err_unknown_field() {
    refused("struct P { x: int } fn main() { let p = P { x: 1 }; return p.y; }", "E0306");
}

#[test]
fn err_missing_field() {
    refused("struct P { x: int, y: int } fn main() { let p = P { x: 1 }; return 0; }", "E0307");
}

#[test]
fn err_unknown_struct() {
    refused("fn main() { let p = Q { x: 1 }; return 0; }", "E0303");
}

#[test]
fn err_field_nonstruct() {
    refused("fn main() { let x = 1; return x.y; }", "E0305");
}

#[test]
fn err_let_null() {
    refused("fn main() { let x = null; return 0; }", "E0208");
}

#[test]
fn err_str_struct() {
    refused("struct P { x: int } fn main() { print str(P { x: 1 }); return 0; }", "E0200");
}

#[test]
fn err_string_assign() {
    refused("fn main() { let s = \"abc\"; s[0] = 65; return 0; }", "E0207");
}

#[test]
fn a_bad_character_is_refused() {
    refused("fn main() { return 1 $ 2; }", "E0001");
}

#[test]
fn a_match_must_be_exhaustive() {
    refused(
        "enum E { A, B } fn main() { match (A) { A => { print 1; } } return 0; }",
        "E0209",
    );
    accepted("enum E { A, B } fn main() { match (A) { A => { print 1; } _ => { print 2; } } return 0; }");
}

#[test]
fn an_arm_that_is_never_reached_is_refused() {
    refused(
        "enum E { A, B } fn main() { match (A) { A => { print 1; } A => { print 2; } B => { print 3; } } return 0; }",
        "E0210",
    );
}

#[test]
fn a_variant_must_exist() {
    refused(
        "enum E { A } fn main() { match (A) { C => { print 1; } _ => { print 2; } } return 0; }",
        "E0308",
    );
}

#[test]
fn definitions_are_unique() {
    refused("fn f() { return 1; } fn f() { return 2; } fn main() { return 0; }", "E0103");
    refused("struct P { x: int } struct P { y: int } fn main() { return 0; }", "E0304");
}

#[test]
fn an_error_is_shown_with_its_line() {
    let src = "fn main() {\n    let あ = 1;\n    return あ + y;\n}\n";
    let mut sources = SourceMap::new();
    let id = sources.add("a.lum".to_string(), src.to_string());
    let program = parse(lex(src, id).ok().unwrap()).ok().unwrap();
    let d = check(&program).unwrap_err();
    assert_eq!(
        d.render(&sources),
        "error[E0101]: 未定義の変数: y\n  --> a.lum:3:16\n  |\n3 |     return あ + y;\n  |                ^\n"
    );
}

#[test]
fn an_error_in_an_interpolation_is_shown_in_the_string() {
    let src = "fn main() { print \"あ{xy}\"; return 0; }";
    let mut sources = SourceMap::new();
    let id = sources.add("a.lum".to_string(), src.to_string());
    let program = parse(lex(src, id).ok().unwrap()).ok().unwrap();
    let d = check(&program).unwrap_err();
    assert_eq!(
        d.render(&sources),
        format!(
            "error[E0101]: 未定義の変数: xy\n  --> a.lum:1:22\n  |\n1 | {}\n  | {}^^\n",
            src,
            " ".repeat(21)
        )
    );
    refused("fn main() { print \"あ{1 +}い\"; return 0; }", "E0002");
    refused("fn main() { print \"あ{1 2}い\"; return 0; }", "E0002");
    refused("fn main() { print \"あ{$}い\"; return 0; }", "E0001");
    refused("fn main() { print \"あ{x", "E0004");
    refused("struct 点 { x: 数 } fn main() { return 0; }", "E0300");
}

#[test]
fn an_error_in_an_imported_file_is_shown_there() {
    let mut l = Loader::new("m".to_string());
    l.resolved(Ok("m".to_string())).ok().unwrap();
    l.read(Ok("import \"あ\"; fn main() { return f(); }".to_string())).ok().unwrap();
    l.resolved(Ok("あ".to_string())).ok().unwrap();
    let text = "# い\nfn f() { return い; }".to_string();
    l.read(Ok(text)).ok().unwrap();
    let (sources, program) = l.finish();
    let d = check(&program).unwrap_err();
    assert!(d.can_render(&sources));
    assert_eq!(
        d.render(&sources),
        "error[E0101]: 未定義の変数: い\n  --> あ:2:17\n  |\n2 | fn f() { return い; }\n  |                 ^\n"
    );
}

#[test]
fn errors_of_the_parser_have_its_codes() {
    refused("fn main() { return 0 }", "E0002");
    refused("fn main(x: [) { return 0; }", "E0300");
    refused("fn main() { print \"{99999999999999999999}\"; return 0; }", "E0003");
    refused("fn main() { print \"{?}\"; return 0; }", "E0001");
}

#[test]
fn the_order_of_definitions_does_not_matter() {
    let parts = [
        "struct P { q: Q, k: Kind }",
        "struct Q { n: int }",
        "enum Kind { One(P), None }",
        "fn even(n: int) -> bool { if (n == 0) { return true; } return odd(n - 1); }",
        "fn odd(n: int) -> bool { if (n == 0) { return false; } return even(n - 1); }",
        "fn main() { let p = P { q: Q { n: 1 }, k: None }; print even(p.q.n); return 0; }",
    ];
    let mut back = parts.to_vec();
    back.reverse();
    accepted(&parts.join(" "));
    accepted(&back.join(" "));
    let mut twice = parts.to_vec();
    twice.push("struct Q { n: int }");
    refused(&twice.join(" "), "E0304");
    twice.reverse();
    refused(&twice.join(" "), "E0304");
}

#[test]
fn an_error_without_a_place_is_one_line() {
    let d = Diagnostic::error("m".to_string()).with_code("E0105");
    assert_eq!(d.render(&SourceMap::new()), "error[E0105]: m\n");
    assert_eq!(Diagnostic::error("m".to_string()).render(&SourceMap::new()), "error: m\n");
}

#[test]
fn a_place_that_is_not_there_cannot_be_shown() {
    let mut sources = SourceMap::new();
    let id = sources.add("a.lum".to_string(), "あ".to_string());
    let inside = lumo::span::Span::new(id, 1, 2);
    assert!(!Diagnostic::error("m".to_string()).at(inside).can_render(&sources));
    let whole = lumo::span::Span::new(id, 0, 3);
    assert!(Diagnostic::error("m".to_string()).at(whole).can_render(&sources));
    let elsewhere = lumo::span::Span::new(FileId(1), 0, 0);
    assert!(!Diagnostic::error("m".to_string()).at(elsewhere).can_render(&sources));
}
