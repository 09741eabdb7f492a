//! The parts one by one.
use lumo::assembly::rt_name;
use lumo::codegen::{accepted, assemble, optimized, passes, CodeGen};
use lumo::ir::{Code, Inst, IrFunc, IrModule, IrTy, Op, Opnd, Rt};
use lumo::lexer::{lex, Segment, Tok};
use lumo::loader::{Loader, Miss, Want};
use lumo::lower::lower_program;
use lumo::options::{action_of, parse_args, Action};
use lumo::parser::parse;
use lumo::runtime::arrays::{byte_order, float_rank, pick, reversed, slice, sort_order};
use lumo::runtime::maps::{str_hash, Table};
use lumo::runtime::numbers::{format_int, is_fraction, is_int, parse_int, read_int};
use lumo::runtime::strings;
use lumo::span::{FileId, SourceMap, Span};
use lumo::typeck::check;
use lumo::types::{Elem, Type};

fn bytes(s: &str) -> Vec<u8> {
    s.as_bytes().to_vec()
}

fn texts(v: Vec<Vec<u8>>) -> Vec<String> {
    v.into_iter().map(|b| String::from_utf8(b).unwrap()).collect()
}

#[test]
fn tokens_have_their_places() {
    let ts = lex("let あ = 1.5;", FileId(2)).ok().unwrap();
    let places: Vec<(usize, usize)> = ts.iter().map(|t| (t.span.start, t.span.end)).collect();
    assert_eq!(places, vec![(0, 3), (4, 7), (8, 9), (10, 13), (13, 14), (14, 14)]);
    assert!(ts.iter().all(|t| t.span.file == FileId(2)));
    assert!(matches!(&ts[1].kind, Tok::Ident(s) if s == "あ"));
    assert!(matches!(&ts[3].kind, Tok::Float(s) if s == "1.5"));
    assert!(ts[5].kind.is(&Tok::Eof));
}

#[test]
fn comments_and_space_are_skipped() {
    let ts = lex("  # nothing\n\t1", FileId(0)).ok().unwrap();
    assert_eq!(ts.len(), 2);
    assert!(matches!(ts[0].kind, Tok::Int(1)));
}

#[test]
fn strings_are_parted_into_segments() {
    let ts = lex("\"a{b}c\"", FileId(0)).ok().unwrap();
    match &ts[0].kind {
        Tok::InterpStr(segs) => {
            assert_eq!(segs.len(), 3);
            assert!(matches!(&segs[0], Segment::Lit(s) if s == "a"));
            assert!(matches!(&segs[2], Segment::Lit(s) if s == "c"));
        }
        other => panic!("{}", other.describe()),
    }
}

#[test]
fn tokens_describe_themselves() {
    assert_eq!(Tok::Ident("x\"y".to_string()).describe(), "Ident(\"x\\\"y\")");
    assert_eq!(Tok::LParen.describe(), "LParen");
    assert_eq!(Tok::Int(-3).describe(), "Int(-3)");
    assert_eq!(Tok::Float("2.50".to_string()).describe(), "Float(2.5)");
}

#[test]
fn spans_merge() {
    let a = Span::new(FileId(0), 3, 5);
    let b = Span::new(FileId(0), 1, 4);
    assert_eq!(a.merge(b), Span::new(FileId(0), 1, 5));
    assert_eq!(b.merge(a), Span::new(FileId(0), 1, 5));
}

#[test]
fn files_are_found_by_their_id() {
    let mut m = SourceMap::default();
    let a = m.add("a".to_string(), "x".to_string());
    let b = m.add("b".to_string(), "y".to_string());
    assert_eq!((a, b, m.count()), (FileId(0), FileId(1), 2));
    assert_eq!(m.get(a).path, "a");
    assert_eq!(m.get(b).src, "y");
}

#[test]
fn types_name_themselves() {
    assert_eq!(Type::Int.name(), "int");
    assert_eq!(Type::Array(Elem::Float).name(), "[float]");
    assert_eq!(Type::MapOf(Elem::Int).name(), "{string: int}");
    assert!(Type::Float.is_numeric());
    assert!(!Type::Str.is_numeric());
    assert!(Type::Str.is_reference());
    assert!(!Type::Int.is_reference());
    assert!(Type::Null.as_elem().is_none());
    assert!(matches!(Type::Bool.as_elem(), Some(Elem::Bool)));
    assert!(matches!(Elem::Str.to_type(), Type::Str));
}

#[test]
fn names_of_types_read_as_the_types() {
    for name in ["int", "bool", "float", "string", "[int]", "[[P]]", "{string: float}", "[{string: {string: [Q]}}]"] {
        let src = format!("fn f(x: {}) {{ return 0; }}", name);
        let program = parse(lex(&src, FileId(0)).ok().unwrap()).ok().unwrap();
        assert_eq!(program.funcs[0].params[0].ty.name(), name);
    }
}

#[test]
fn split_and_join_undo_each_other() {
    let s = bytes("a,,b,");
    let parts = strings::split(&s, &bytes(","));
    assert_eq!(texts(parts.clone()), vec!["a", "", "b", ""]);
    assert_eq!(strings::join(&parts, &bytes(",")), s);
    assert_eq!(texts(strings::split(&s, &bytes(""))), vec!["a,,b,"]);
    assert_eq!(texts(strings::split(&bytes("aaa"), &bytes("aa"))), vec!["", "a"]);
    assert_eq!(strings::join(&Vec::new(), &bytes(",")), bytes(""));
}

#[test]
fn searching() {
    assert_eq!(strings::find(&bytes("hello"), &bytes("l")), 2);
    assert_eq!(strings::find(&bytes("hello"), &bytes("x")), -1);
    assert_eq!(strings::find(&bytes("hello"), &bytes("")), 0);
    assert_eq!(strings::find(&bytes("a"), &bytes("ab")), -1);
    assert!(strings::contains(&bytes("hello"), &bytes("lo")));
    assert!(!strings::contains(&bytes("hello"), &bytes("ol")));
    assert!(strings::has_affix(&bytes("hello"), &bytes("he"), false));
    assert!(!strings::has_affix(&bytes("hello"), &bytes("he"), true));
    assert!(!strings::has_affix(&bytes("e"), &bytes("he"), true));
    assert!(strings::eq_at(&bytes("hello"), 3, &bytes("lo")));
    assert!(!strings::eq_at(&bytes("hello"), 9, &bytes("lo")));
    assert_eq!(strings::line_len(&bytes("ab\ncd\n")), 2);
    assert_eq!(strings::line_len(&bytes("ab")), 2);
}

#[test]
fn shaping() {
    assert_eq!(strings::trim(&bytes(" \t\r\na b\n ")), bytes("a b"));
    assert_eq!(strings::trim(&bytes("  ")), bytes(""));
    assert_eq!(strings::to_case(&bytes("aZ{[é"), true), bytes("AZ{[é"));
    assert_eq!(strings::to_case(&bytes("aZ{["), false), bytes("az{["));
    assert_eq!(strings::repeat(&bytes("ab"), 2), bytes("abab"));
    assert_eq!(strings::repeat(&bytes("ab"), 0), bytes(""));
    assert_eq!(strings::replace(&bytes("aXbX"), &bytes("X"), &bytes("--")), bytes("a--b--"));
    assert_eq!(strings::replace(&bytes("ab"), &bytes(""), &bytes("-")), bytes("ab"));
    assert_eq!(strings::substr(&bytes("hello"), 1, 3), bytes("ell"));
}

#[test]
fn integers_as_text() {
    assert_eq!(parse_int(&bytes("-42")), Some(-42));
    assert_eq!(parse_int(&bytes(" 42")), None);
    assert_eq!(parse_int(&bytes("\t-42")), None);
    assert_eq!(parse_int(&bytes("+7")), Some(7));
    assert_eq!(parse_int(&bytes("7 ")), None);
    assert_eq!(parse_int(&bytes("")), None);
    assert_eq!(parse_int(&bytes("-")), None);
    assert_eq!(read_int(&bytes("42")), Ok(42));
    assert_eq!(read_int(&bytes("4x")), Err("lumo: int() got a non-integer string\n"));
    assert_eq!(parse_int(&bytes("99999999999999999999")), Some(i64::MAX));
    assert_eq!(parse_int(&bytes("-99999999999999999999")), Some(i64::MIN));
    assert!(is_int(&bytes("0")));
    assert!(!is_int(&bytes("0x1")));
    for s in ["1", "-1.5", "+.5", "1.", "2e10", "2.5E-3"] {
        assert!(is_fraction(&bytes(s)));
    }
    for s in ["", ".", "-", "1.2.3", "e5", "1e", "1e+", "1e5e", " 1", "1 ", "0x1", "nan", "inf"] {
        assert!(!is_fraction(&bytes(s)));
    }
    for n in [0, 9, 10, -1, i64::MAX, i64::MIN] {
        assert_eq!(format_int(n), format!("{}", n).into_bytes());
        assert_eq!(parse_int(&format_int(n)), Some(n));
    }
}

#[test]
fn sorting() {
    let xs: Vec<i64> = vec![3, -1, 3, 2];
    let order = sort_order(&xs);
    assert_eq!(order, vec![1, 3, 0, 2]);
    assert_eq!(pick(&xs, &order), vec![-1, 2, 3, 3]);
    let words: Vec<Vec<u8>> = vec![bytes("b"), bytes("ab"), bytes("a"), bytes("")];
    assert_eq!(sort_order(&words), vec![3, 2, 1, 0]);
    assert_eq!(byte_order(&bytes("a"), &bytes("ab")), -1);
    assert_eq!(byte_order(&bytes("b"), &bytes("ab")), 1);
    assert_eq!(byte_order(&bytes("é"), &bytes("é")), 0);
    let floats = [1.5f64, -2.0, -0.5, 100.0];
    let ranks: Vec<i64> = floats.iter().map(|x| float_rank(x.to_bits())).collect();
    assert_eq!(sort_order(&ranks), vec![1, 2, 0, 3]);
}

#[test]
fn parts_of_arrays() {
    let xs: Vec<i64> = vec![1, 2, 3, 4];
    assert_eq!(slice(&xs, 1, 3), vec![2, 3]);
    assert_eq!(slice(&xs, 2, 2), Vec::<i64>::new());
    assert_eq!(reversed(&xs), vec![4, 3, 2, 1]);
    assert_eq!(reversed(&reversed(&xs)), xs);
}

#[test]
fn hashes_are_those_of_fnv() {
    assert_eq!(str_hash(&bytes("")), 14695981039346656037);
    assert_eq!(str_hash(&bytes("a")), 0xaf63dc4c8601ec8c);
    assert_eq!(str_hash(&bytes("foobar")), 0x85944171f73967e8);
}

#[test]
fn maps_keep_what_they_are_given() {
    let mut t = Table::new();
    for i in 0..1000 {
        t.put(&format!("k{}", i).into_bytes(), i);
    }
    assert_eq!(t.len(), 1000);
    t.put(&bytes("k7"), -7);
    assert_eq!(t.len(), 1000);
    assert_eq!(t.get(&bytes("k7")), Some(-7));
    assert_eq!(t.get(&bytes("k999")), Some(999));
    assert_eq!(t.get(&bytes("nothing")), None);
    assert_eq!(t.fetch(&bytes("k999")), Ok(999));
    assert_eq!(t.fetch(&bytes("nothing")), Err("lumo: key not found\n"));
    t.del(&bytes("k0"));
    t.del(&bytes("nothing"));
    assert!(!t.has(&bytes("k0")));
    assert_eq!(t.len(), 999);
    let mut keys = texts(t.keys());
    assert_eq!(keys.len(), 999);
    keys.sort();
    keys.dedup();
    assert_eq!(keys.len(), 999);
}

#[test]
fn keys_come_bucket_by_bucket() {
    let mut t = Table::new();
    let mut names = vec!["a", "b", "c", "d"];
    for n in &names {
        t.put(&bytes(n), 1);
    }
    names.sort_by_key(|n| str_hash(&bytes(n)) % 64);
    assert_eq!(texts(t.keys()), names);
}

#[test]
fn arguments_are_read() {
    let args = |v: &[&str]| -> Vec<String> { v.iter().map(|s| s.to_string()).collect() };
    let o = parse_args(&args(&["run", "-O2", "a.lum"])).unwrap();
    assert_eq!((o.cmd.as_str(), o.path.as_str(), o.opt), ("run", "a.lum", 2));
    let o = parse_args(&args(&["-O1", "build", "a.lum", "-O3"])).unwrap();
    assert_eq!((o.cmd.as_str(), o.opt), ("build", 3));
    assert!(parse_args(&args(&["run"])).is_none());
    assert!(parse_args(&args(&["run", "a", "b"])).is_none());
    assert!(parse_args(&args(&["-O0"])).is_none());
    assert_eq!(action_of("run"), Some(Action::Run));
    assert_eq!(action_of("build"), Some(Action::Build));
    assert_eq!(action_of("emit-ir"), Some(Action::EmitIr));
    assert_eq!(action_of("other"), None);
}

/// Loads the program at `/m` from files that are only here.
fn load(files: &[(&str, &str)]) -> Result<(Vec<String>, Vec<String>), (Option<&'static str>, String)> {
    let mut l = Loader::new("/m".to_string());
    loop {
        let ask = match l.want() {
            Want::Resolve { path, .. } => Ok(path.clone()),
            Want::Read { path, .. } => Err(path.clone()),
            Want::Done => break,
        };
        let done = match ask {
            Ok(path) => {
                let found = files.iter().any(|f| f.0 == path);
                l.resolved(if found {
                    Ok(path)
                } else {
                    Err(Miss { shown: path, reason: "gone".to_string() })
                })
            }
            Err(path) => {
                let text = files.iter().find(|f| f.0 == path).unwrap().1;
                l.read(if text == "?" { Err("locked".to_string()) } else { Ok(text.to_string()) })
            }
        };
        if let Err(d) = done {
            return Err((d.code, d.message));
        }
    }
    let (sources, program) = l.finish();
    let paths = (0..sources.count()).map(|i| sources.get(FileId(i as u32)).path.clone()).collect();
    Ok((paths, program.funcs.iter().map(|f| f.name.clone()).collect()))
}

#[test]
fn imports_come_first_and_once() {
    let (paths, funcs) = load(&[
        ("/m", "import \"a\"; import \"b\"; fn main() { return 0; }"),
        ("a", "import \"c\"; fn fa() { return 0; }"),
        ("b", "import \"c\"; import \"a\"; fn fb() { return 0; }"),
        ("c", "import \"a\"; fn fc() { return 0; }"),
    ])
    .unwrap();
    assert_eq!(paths, vec!["/m", "a", "c", "b"]);
    assert_eq!(funcs, vec!["fc", "fa", "fb", "main"]);
}

#[test]
fn imports_that_fail_are_reported() {
    let (code, message) = load(&[("/m", "import \"x\"; fn main() { return 0; }")]).unwrap_err();
    assert_eq!(code, Some("E0105"));
    assert_eq!(message, "import 先が見つかりません x: gone");
    let (code, message) = load(&[("/m", "import \"x\";"), ("x", "?")]).unwrap_err();
    assert_eq!(code, Some("E0105"));
    assert_eq!(message, "ファイルを読めません x: locked");
    assert_eq!(load(&[("/m", "import \"x\";"), ("x", "fn (")]).unwrap_err().0, Some("E0002"));
    assert_eq!(load(&[("/m", "$")]).unwrap_err().0, Some("E0001"));
}

fn module(src: &str) -> IrModule {
    let program = parse(lex(src, FileId(0)).ok().unwrap()).ok().unwrap();
    assert!(check(&program).is_ok());
    lower_program(&program)
}

#[test]
fn a_function_is_lowered() {
    let m = module("fn add1(n: int) -> int { return n + 1; } fn main() { return add1(41); }");
    let f: &IrFunc = &m.funcs[0];
    assert_eq!(f.params, vec![IrTy::I64]);
    assert_eq!(f.regs, vec![IrTy::I64, IrTy::I64]);
    assert_eq!(f.code.len(), 3);
    match &f.code[2] {
        Code::Return(v) => assert_eq!(*v, Opnd::Reg(1)),
        _ => panic!("no return"),
    }
    match &f.code[1] {
        Code::Do(Inst::Op { dst, op, args }) => {
            assert_eq!((*dst, *op), (1, Op::Add));
            assert_eq!(*args, vec![Opnd::Reg(0), Opnd::Int(1)]);
        }
        _ => panic!("no sum"),
    }
}

fn count(code: &[Code], times: &mut Vec<usize>, regs: &[IrTy]) {
    for c in code {
        match c {
            Code::Do(Inst::Op { dst, op, args }) => {
                times[*dst] += 1;
                let of = |v: &Opnd| match v {
                    Opnd::Reg(r) => regs[*r],
                    Opnd::Int(_) | Opnd::Size(_) => IrTy::I64,
                    Opnd::Bool(_) => IrTy::I1,
                    Opnd::Float(_) => IrTy::F64,
                    Opnd::Str(_) | Opnd::Null => IrTy::Ptr,
                };
                match op {
                    Op::Add | Op::Mul => {
                        assert!(args.iter().all(|v| of(v) == IrTy::I64) && regs[*dst] == IrTy::I64)
                    }
                    Op::FMul => {
                        assert!(args.iter().all(|v| of(v) == IrTy::F64) && regs[*dst] == IrTy::F64)
                    }
                    Op::ICmp(_) => {
                        assert!(args.iter().all(|v| of(v) == IrTy::I64) && regs[*dst] == IrTy::I1)
                    }
                    Op::Load(ty) => assert!(of(&args[0]) == IrTy::Ptr && regs[*dst] == *ty),
                    _ => {}
                }
            }
            Code::Do(Inst::Call { dst, .. }) => times[*dst] += 1,
            Code::If { then, els, .. } => {
                count(then, times, regs);
                count(els, times, regs);
            }
            Code::Loop { head, body, step, .. } => {
                count(head, times, regs);
                count(body, times, regs);
                count(step, times, regs);
            }
            Code::Switch { cases, default, .. } => {
                for case in cases {
                    count(case, times, regs);
                }
                count(default, times, regs);
            }
            _ => {}
        }
    }
}

#[test]
fn registers_have_types_and_are_written_once() {
    let m = module(
        "enum Shape { Circle(float), Dot } \
         fn area(s: Shape) -> float { match (s) { Circle(r) => { return 3.0 * r * r; } _ => { return 0.0; } } } \
         fn main() { let a = [1, 2]; push(a, 3); let n = 0; \
         for (x in a) { if (x == 2 || x > 5 && x < 9) { continue; } n = n + x; } \
         for (let i = 0; i < 3; i = i + 1) { n = n * 2; } \
         let m = {\"k\": area(Circle(1.5))}; print m[\"k\"]; return n; }",
    );
    for f in &m.funcs {
        let mut times = vec![0; f.regs.len()];
        count(&f.code, &mut times, &f.regs);
        assert!(times.iter().all(|n| *n == 1));
        assert!(f.slots.starts_with(&f.params));
    }
    assert_eq!((m.funcs[0].params.clone(), m.funcs[0].ret), (vec![IrTy::Ptr], IrTy::F64));
}

#[test]
fn a_program_is_assembled() {
    let text = assemble(&module("fn add1(n: int) -> int { return n + 1; } fn main() { print \"h\\\"i\"; return add1(41); }")).unwrap();
    assert!(text.contains(
        "define internal i64 @add1(i64 %p0) \"no-builtins\" {\nentry:\n  %v0 = alloca i64\n  store i64 %p0, ptr %v0\n  br label %b0\nb0:\n  %r0 = load i64, ptr %v0\n  %r1 = add i64 %r0, 1\n  ret i64 %r1\n}\n"
    ));
    assert!(text.contains(
        "define i64 @main() \"no-builtins\" {\nentry:\n  br label %b0\nb0:\n  %r0 = call i64 @lumo_print_str(ptr @.s0)\n  %r1 = call i64 @add1(i64 41)\n  ret i64 %r1\n}\n"
    ));
    assert!(text.ends_with("@.s0 = private unnamed_addr constant [4 x i8] c\"h\\22i\\00\"\n"));
    assert!(text.contains("declare i64 @lumo_print_str(ptr)\n"));
    assert!(text.contains(&format!("declare ptr @{}(ptr, ptr)\n", rt_name(Rt::Split))));
}

#[test]
fn branches_are_assembled() {
    let text = assemble(&module("fn main() { let i = 0; while (i < 3) { i = i + 1; } if (i == 3) { return 1; } return 0; }")).unwrap();
    assert!(text.contains("  br label %b1\nb1:\n"));
    assert!(text.contains(" = icmp slt i64 "));
    assert!(text.contains(", label %b2, label %b4\n"));
    let zero = assemble(&module("fn main() { let z = 0; return 1 / z; }")).unwrap();
    assert!(zero.contains("  call void @lumo_panic(ptr @.s0)\n  unreachable\n"));
    assert!(zero.contains("c\"lumo: division by zero\\0A\\00\""));
}

#[test]
fn levels_have_their_passes() {
    assert_eq!(passes(2), "default<O2>");
    assert_eq!(passes(255), "default<O255>");
}

#[test]
fn what_is_read_decides() {
    assert_eq!(accepted("text", Ok("read".to_string())).ok(), Some("read".to_string()));
    let d = accepted("text", Err("bad".to_string())).unwrap_err();
    assert_eq!(d.message, "内部エラー: 生成したLLVM IRが不正です\ntext");
    assert_eq!((d.code, d.span), (None, None));
    assert_eq!(optimized(Ok("better".to_string())), Ok("better".to_string()));
    assert_eq!(optimized(Err(Some("no pass".to_string()))), Err("no pass".to_string()));
    assert_eq!(optimized(Err(None)), Err("ターゲットマシンを作成できません".to_string()));
}

#[test]
fn a_new_module_is_empty() {
    assert_eq!(CodeGen::new("m").ir_string(), "");
}

#[test]
fn names_are_kept_but_for_those_of_the_runtime() {
    let text = assemble(&module("fn strlen(s: string) -> int { return 7; } fn lumo_new(n: int) -> int { return n; } fn 足す(n: int) -> int { return n; } fn main() { return strlen(\"a\") + lumo_new(1) + 足す(2); }")).unwrap();
    assert!(text.contains("define internal i64 @strlen(ptr %p0) \"no-builtins\" {\n"));
    assert!(text.contains("define internal i64 @\"fn.lumo_new\"(i64 %p0) \"no-builtins\" {\n"));
    assert!(text.contains("define internal i64 @\"\\E8\\B6\\B3\\E3\\81\\99\"(i64 %p0)"));
    assert!(text.contains("declare ptr @lumo_new(i64)\n"));
    assert!(text.contains(" = call i64 @strlen(ptr @.s0)\n"));
}

#[test]
fn fractions_are_shown_by_their_value() {
    let written = [
        "0.0", "00.000", "2.50", "007.0", "1.5", "0.1", "100.0", "120.0340", "0.0001", "0.00010",
        "0.00012", "0.000099", "0.00001", "0.000012500", "3.141592653589793",
        "1234567890123456.0", "9999999999999990.0", "10000000000000000.0", "12000000000000000000.0",
    ];
    for s in written {
        let shown = format!("Float({:?})", s.parse::<f64>().unwrap());
        assert_eq!(Tok::Float(s.to_string()).describe(), shown);
    }
    let e = lex("2.50", FileId(0)).ok().map(|ts| parse(ts).err().unwrap().message).unwrap();
    assert!(e.contains("Float(2.5)"), "{}", e);
}
