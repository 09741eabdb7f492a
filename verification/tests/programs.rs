//! Whole programs: compiled to blocks, and the blocks carried out by a small machine.
use lumo::blocks::{flatten, FlatFunc, Term};
use lumo::ir::{Inst, IrTy, Op, Opnd, Pred, Rt};
use lumo::lexer::lex;
use lumo::lower::lower_program;
use lumo::parser::parse;
use lumo::runtime::arrays::{float_rank, pick, reversed, slice, sort_order};
use lumo::runtime::maps::{str_hash, Table};
use lumo::runtime::numbers::{format_int, is_fraction, is_int, read_int};
use lumo::runtime::strings;
use lumo::span::FileId;
use lumo::typeck::check;

#[derive(Clone, Copy, Debug, PartialEq)]
enum Ptr {
    Null,
    At(usize, usize),
}

#[derive(Clone, Copy, Debug, PartialEq)]
enum Val {
    Int(i64),
    Bit(bool),
    Float(f64),
    Ptr(Ptr),
}

enum Obj {
    Slots(Vec<Val>),
    Bytes(Vec<u8>),
    Table(Table),
}

struct Machine {
    funcs: std::rc::Rc<Vec<FlatFunc>>,
    heap: Vec<Obj>,
    names: Vec<Ptr>,
    out: String,
    input: Vec<String>,
    files: Vec<(Vec<u8>, Vec<u8>)>,
}

type Run<T> = Result<T, String>;

impl Machine {
    fn put(&mut self, o: Obj) -> Val {
        self.heap.push(o);
        Val::Ptr(Ptr::At(self.heap.len() - 1, 0))
    }

    fn text(&mut self, bytes: Vec<u8>) -> Val {
        let mut b = bytes;
        b.push(0);
        self.put(Obj::Bytes(b))
    }

    fn as_int(&self, v: Val) -> i64 {
        match v {
            Val::Int(n) => n,
            other => panic!("not an integer: {:?}", other),
        }
    }

    fn as_bit(&self, v: Val) -> bool {
        match v {
            Val::Bit(b) => b,
            other => panic!("not a bit: {:?}", other),
        }
    }

    fn as_float(&self, v: Val) -> f64 {
        match v {
            Val::Float(x) => x,
            other => panic!("not a fraction: {:?}", other),
        }
    }

    fn at(&self, v: Val) -> (usize, usize) {
        match v {
            Val::Ptr(Ptr::At(o, k)) => (o, k),
            other => panic!("not a place: {:?}", other),
        }
    }

    fn bytes(&self, v: Val) -> Vec<u8> {
        let (o, k) = self.at(v);
        match &self.heap[o] {
            Obj::Bytes(b) => b[k..].iter().take_while(|c| **c != 0).cloned().collect(),
            _ => panic!("not a string"),
        }
    }

    fn shown(&self, v: Val) -> String {
        String::from_utf8(self.bytes(v)).unwrap()
    }

    fn load(&self, v: Val) -> Val {
        let (o, k) = self.at(v);
        match &self.heap[o] {
            Obj::Slots(s) => s[k / 8],
            Obj::Table(t) => {
                assert_eq!(k, 0);
                Val::Int(t.len() as i64)
            }
            Obj::Bytes(_) => panic!("a string holds no slots"),
        }
    }

    fn store(&mut self, p: Val, v: Val) {
        let (o, k) = self.at(p);
        match &mut self.heap[o] {
            Obj::Slots(s) => s[k / 8] = v,
            _ => panic!("no slots to write"),
        }
    }

    fn elems(&self, hdr: Val) -> Vec<Val> {
        let (o, _) = self.at(hdr);
        let (len, data) = match &self.heap[o] {
            Obj::Slots(s) => (self.as_int(s[0]) as usize, s[2]),
            _ => panic!("not an array"),
        };
        if len == 0 {
            return Vec::new();
        }
        let (d, _) = self.at(data);
        match &self.heap[d] {
            Obj::Slots(s) => s[..len].to_vec(),
            _ => panic!("not elements"),
        }
    }

    fn array(&mut self, vs: Vec<Val>) -> Val {
        let n = vs.len() as i64;
        let data = if vs.is_empty() { Val::Ptr(Ptr::Null) } else { self.put(Obj::Slots(vs)) };
        self.put(Obj::Slots(vec![Val::Int(n), Val::Int(n), data]))
    }

    fn name_of(&mut self, p: Ptr) -> i64 {
        if p == Ptr::Null {
            return 0;
        }
        match self.names.iter().position(|q| *q == p) {
            Some(i) => i as i64 + 1,
            None => {
                self.names.push(p);
                self.names.len() as i64
            }
        }
    }

    fn table(&mut self, v: Val) -> &mut Table {
        let (o, _) = self.at(v);
        match &mut self.heap[o] {
            Obj::Table(t) => t,
            _ => panic!("not a map"),
        }
    }

    /// The indices of the elements of an array, as slots.
    fn picked(&mut self, hdr: Val, order: Vec<usize>) -> Val {
        let vs = self.elems(hdr);
        let places: Vec<i64> = (0..vs.len() as i64).collect();
        let chosen = pick(&places, &order);
        self.array(chosen.iter().map(|i| vs[*i as usize]).collect())
    }

    fn rt(&mut self, f: Rt, a: &[Val]) -> Run<Val> {
        let none = Val::Int(0);
        Ok(match f {
            Rt::Alloc => {
                let n = self.as_int(a[0]) as usize;
                self.put(Obj::Bytes(vec![0; n]))
            }
            Rt::Realloc => {
                let n = self.as_int(a[1]) as usize / 8;
                // What was moved is no longer where it was.
                let mut vs = match a[0] {
                    Val::Ptr(Ptr::Null) => Vec::new(),
                    p => {
                        let k = self.at(p).0;
                        match std::mem::replace(&mut self.heap[k], Obj::Slots(Vec::new())) {
                            Obj::Slots(s) => s,
                            _ => panic!("not elements"),
                        }
                    }
                };
                vs.resize(n, Val::Int(0));
                self.put(Obj::Slots(vs))
            }
            Rt::StrLen => Val::Int(self.bytes(a[0]).len() as i64),
            Rt::StrCpy | Rt::StrCat => {
                let from = self.bytes(a[1]);
                let start = if f == Rt::StrCat { self.bytes(a[0]).len() } else { 0 };
                let (o, _) = self.at(a[0]);
                match &mut self.heap[o] {
                    Obj::Bytes(b) => {
                        b[start..start + from.len()].copy_from_slice(&from);
                        b[start + from.len()] = 0;
                    }
                    _ => panic!("not a string"),
                }
                a[0]
            }
            Rt::StrCmp => {
                let (x, y) = (self.bytes(a[0]), self.bytes(a[1]));
                Val::Int(if x < y { -1 } else if x > y { 1 } else { 0 })
            }
            Rt::FormatInt | Rt::FormatFloat => {
                let s = match a[2] {
                    Val::Int(n) => format_int(n),
                    v => format!("{}", self.as_float(v)).into_bytes(),
                };
                let (o, _) = self.at(a[0]);
                match &mut self.heap[o] {
                    Obj::Bytes(b) => {
                        b[..s.len()].copy_from_slice(&s);
                        b[s.len()] = 0;
                    }
                    _ => panic!("not a string"),
                }
                a[0]
            }
            Rt::ParseInt => match read_int(&self.bytes(a[0])) {
                Ok(n) => Val::Int(n),
                Err(message) => return Err(message.to_string()),
            },
            Rt::ParseFloat => {
                if !is_fraction(&self.bytes(a[0])) {
                    return Err("lumo: float() got a non-number string\n".to_string());
                }
                Val::Float(self.shown(a[0]).parse::<f64>().unwrap())
            }
            Rt::IsInt => Val::Bit(is_int(&self.bytes(a[0]))),
            Rt::IsFloat => Val::Bit(is_fraction(&self.bytes(a[0]))),
            Rt::Sqrt => Val::Float(self.as_float(a[0]).sqrt()),
            Rt::Floor => Val::Float(self.as_float(a[0]).floor()),
            Rt::Ceil => Val::Float(self.as_float(a[0]).ceil()),
            Rt::Fabs => Val::Float(self.as_float(a[0]).abs()),
            Rt::MinNum => Val::Float(self.as_float(a[0]).min(self.as_float(a[1]))),
            Rt::MaxNum => Val::Float(self.as_float(a[0]).max(self.as_float(a[1]))),
            Rt::Pow => Val::Float(self.as_float(a[0]).powf(self.as_float(a[1]))),
            Rt::PrintInt => {
                let line = format!("{}\n", self.as_int(a[0]));
                self.out.push_str(&line);
                none
            }
            Rt::PrintFloat => {
                let line = format!("{}\n", self.as_float(a[0]));
                self.out.push_str(&line);
                none
            }
            Rt::PrintStr => {
                let line = format!("{}\n", self.shown(a[0]));
                self.out.push_str(&line);
                none
            }
            Rt::Fgets => {
                if self.input.is_empty() {
                    Val::Ptr(Ptr::Null)
                } else {
                    let mut line = self.input.remove(0).into_bytes();
                    line.push(10);
                    line.push(0);
                    let (o, _) = self.at(a[0]);
                    self.heap[o] = Obj::Bytes(line);
                    a[0]
                }
            }
            Rt::NewlinePos => {
                let b = self.bytes(a[0]);
                Val::Int(b.iter().position(|c| *c == 10).unwrap_or(b.len()) as i64)
            }
            Rt::ReadFile => {
                let path = self.bytes(a[0]);
                match self.files.iter().rev().find(|f| f.0 == path) {
                    Some(f) => {
                        let b = f.1.clone();
                        self.text(b)
                    }
                    None => Val::Ptr(Ptr::Null),
                }
            }
            Rt::WriteFile => {
                let f = (self.bytes(a[0]), self.bytes(a[1]));
                self.files.push(f);
                Val::Bit(true)
            }
            Rt::Substr => {
                let (i, n) = (self.as_int(a[1]) as usize, self.as_int(a[2]) as usize);
                let s = strings::substr(&self.bytes(a[0]), i, n);
                self.text(s)
            }
            Rt::Split => {
                let parts = strings::split(&self.bytes(a[0]), &self.bytes(a[1]));
                let vs = parts.into_iter().map(|p| self.text(p)).collect();
                self.array(vs)
            }
            Rt::Join => {
                let parts: Vec<Vec<u8>> = self.elems(a[0]).iter().map(|v| self.bytes(*v)).collect();
                let s = strings::join(&parts, &self.bytes(a[1]));
                self.text(s)
            }
            Rt::ToCase => {
                let s = strings::to_case(&self.bytes(a[0]), self.as_bit(a[1]));
                self.text(s)
            }
            Rt::Trim => {
                let s = strings::trim(&self.bytes(a[0]));
                self.text(s)
            }
            Rt::Find => Val::Int(strings::find(&self.bytes(a[0]), &self.bytes(a[1]))),
            Rt::HasAffix => {
                Val::Bit(strings::has_affix(&self.bytes(a[0]), &self.bytes(a[1]), self.as_bit(a[2])))
            }
            Rt::Repeat => {
                let s = strings::repeat(&self.bytes(a[0]), self.as_int(a[1]));
                self.text(s)
            }
            Rt::ArraySlice => {
                let vs = self.elems(a[0]);
                let places: Vec<i64> = (0..vs.len() as i64).collect();
                let part = slice(&places, self.as_int(a[1]) as usize, self.as_int(a[2]) as usize);
                self.array(part.iter().map(|i| vs[*i as usize]).collect())
            }
            Rt::SortInt => {
                let keys: Vec<i64> = self.elems(a[0]).iter().map(|v| self.as_int(*v)).collect();
                self.picked(a[0], sort_order(&keys))
            }
            Rt::SortFloat => {
                let keys: Vec<i64> =
                    self.elems(a[0]).iter().map(|v| float_rank(self.as_float(*v).to_bits())).collect();
                self.picked(a[0], sort_order(&keys))
            }
            Rt::SortStr => {
                let keys: Vec<Vec<u8>> = self.elems(a[0]).iter().map(|v| self.bytes(*v)).collect();
                self.picked(a[0], sort_order(&keys))
            }
            Rt::Reverse => {
                let vs = self.elems(a[0]);
                let places: Vec<i64> = (0..vs.len() as i64).collect();
                let back = reversed(&places);
                self.array(back.iter().map(|i| vs[*i as usize]).collect())
            }
            Rt::StrHash => Val::Int(str_hash(&self.bytes(a[0])) as i64),
            Rt::MapNew => self.put(Obj::Table(Table::new())),
            Rt::MapPut => {
                let key = self.bytes(a[1]);
                let v = self.as_int(a[3]);
                self.table(a[0]).put(&key, v);
                none
            }
            Rt::MapGet => {
                let key = self.bytes(a[1]);
                match self.table(a[0]).fetch(&key) {
                    Ok(v) => Val::Int(v),
                    Err(message) => return Err(message.to_string()),
                }
            }
            Rt::MapHas => {
                let key = self.bytes(a[1]);
                Val::Bit(self.table(a[0]).has(&key))
            }
            Rt::MapDel => {
                let key = self.bytes(a[1]);
                self.table(a[0]).del(&key);
                none
            }
            Rt::MapKeys => {
                let keys = self.table(a[0]).keys();
                let vs = keys.into_iter().map(|k| self.text(k)).collect();
                self.array(vs)
            }
        })
    }

    fn op(&mut self, op: Op, a: &[Val], vars: &mut Vec<Val>) -> Run<Val> {
        let none = Val::Int(0);
        Ok(match op {
            Op::Add => Val::Int(self.as_int(a[0]).wrapping_add(self.as_int(a[1]))),
            Op::Sub => Val::Int(self.as_int(a[0]).wrapping_sub(self.as_int(a[1]))),
            Op::Mul => Val::Int(self.as_int(a[0]).wrapping_mul(self.as_int(a[1]))),
            Op::SDiv => Val::Int(self.as_int(a[0]).wrapping_div(self.as_int(a[1]))),
            Op::SRem => Val::Int(self.as_int(a[0]).wrapping_rem(self.as_int(a[1]))),
            Op::And => Val::Int(self.as_int(a[0]) & self.as_int(a[1])),
            Op::Or => Val::Int(self.as_int(a[0]) | self.as_int(a[1])),
            Op::Xor => Val::Int(self.as_int(a[0]) ^ self.as_int(a[1])),
            Op::Shl => Val::Int(self.as_int(a[0]).wrapping_shl(self.as_int(a[1]) as u32)),
            Op::AShr => Val::Int(self.as_int(a[0]).wrapping_shr(self.as_int(a[1]) as u32)),
            Op::Neg => Val::Int(self.as_int(a[0]).wrapping_neg()),
            Op::BitNot => Val::Int(!self.as_int(a[0])),
            Op::ICmp(p) => {
                let (x, y) = match (a[0], a[1]) {
                    (Val::Bit(x), Val::Bit(y)) => (x as i64, y as i64),
                    _ => (self.as_int(a[0]), self.as_int(a[1])),
                };
                Val::Bit(match p {
                    Pred::Eq => x == y,
                    Pred::Ne => x != y,
                    Pred::Lt => x < y,
                    Pred::Le => x <= y,
                    Pred::Gt => x > y,
                    Pred::Ge => x >= y,
                    Pred::Below => (x as u64) < (y as u64),
                    Pred::AtLeast => (x as u64) >= (y as u64),
                })
            }
            Op::FAdd => Val::Float(self.as_float(a[0]) + self.as_float(a[1])),
            Op::FSub => Val::Float(self.as_float(a[0]) - self.as_float(a[1])),
            Op::FMul => Val::Float(self.as_float(a[0]) * self.as_float(a[1])),
            Op::FDiv => Val::Float(self.as_float(a[0]) / self.as_float(a[1])),
            Op::FNeg => Val::Float(-self.as_float(a[0])),
            Op::FCmp(p) => {
                let (x, y) = (self.as_float(a[0]), self.as_float(a[1]));
                Val::Bit(match p {
                    Pred::Eq => x == y,
                    Pred::Ne => x != y,
                    Pred::Lt | Pred::Below => x < y,
                    Pred::Le => x <= y,
                    Pred::Gt => x > y,
                    Pred::Ge | Pred::AtLeast => x >= y,
                })
            }
            Op::Not => Val::Bit(!self.as_bit(a[0])),
            Op::Both => Val::Bit(self.as_bit(a[0]) && self.as_bit(a[1])),
            Op::Select => {
                if self.as_bit(a[0]) {
                    a[1]
                } else {
                    a[2]
                }
            }
            Op::SiToFp => Val::Float(self.as_int(a[0]) as f64),
            Op::FpToSi => Val::Int(self.as_float(a[0]) as i64),
            Op::BoolToSlot => Val::Int(self.as_bit(a[0]) as i64),
            Op::SlotToBool => Val::Bit(self.as_int(a[0]) != 0),
            Op::FloatToSlot => Val::Int(self.as_float(a[0]).to_bits() as i64),
            Op::SlotToFloat => Val::Float(f64::from_bits(self.as_int(a[0]) as u64)),
            Op::PtrToSlot => match a[0] {
                Val::Ptr(p) => Val::Int(self.name_of(p)),
                other => panic!("not a place: {:?}", other),
            },
            Op::SlotToPtr => {
                let n = self.as_int(a[0]);
                Val::Ptr(if n == 0 { Ptr::Null } else { self.names[n as usize - 1] })
            }
            Op::IsNull => Val::Bit(a[0] == Val::Ptr(Ptr::Null)),
            Op::New(n) => self.put(Obj::Slots(vec![none; n])),
            Op::NewTagged(n) => self.put(Obj::Slots(vec![none; n + 1])),
            Op::Slot(i) => {
                let (o, k) = self.at(a[0]);
                Val::Ptr(Ptr::At(o, k + 8 * i))
            }
            Op::Offset => {
                let (o, k) = self.at(a[0]);
                Val::Ptr(Ptr::At(o, (k as i64 + self.as_int(a[1])) as usize))
            }
            Op::Load(_) => self.load(a[0]),
            Op::LoadByte => {
                let (o, k) = self.at(a[0]);
                match &self.heap[o] {
                    Obj::Bytes(b) => Val::Int(b[k] as i64),
                    _ => panic!("not a string"),
                }
            }
            Op::Store => {
                self.store(a[0], a[1]);
                none
            }
            Op::StoreByte => {
                let (o, k) = self.at(a[0]);
                let v = self.as_int(a[1]) as u8;
                match &mut self.heap[o] {
                    Obj::Bytes(b) => b[k] = v,
                    _ => panic!("not a string"),
                }
                none
            }
            Op::GetVar(i) => vars[i],
            Op::SetVar(i) => {
                vars[i] = a[0];
                none
            }
            Op::Rt(f) => return self.rt(f, a),
        })
    }

    fn value(&mut self, v: &Opnd, regs: &[Val]) -> Val {
        match v {
            Opnd::Reg(r) => regs[*r],
            Opnd::Int(n) => Val::Int(*n),
            Opnd::Size(n) => Val::Int(*n as i64),
            Opnd::Bool(b) => Val::Bit(*b),
            Opnd::Float(s) => Val::Float(s.parse().unwrap()),
            Opnd::Str(s) => self.text(s.clone().into_bytes()),
            Opnd::Null => Val::Ptr(Ptr::Null),
        }
    }

    fn fits(&self, v: Val, t: IrTy) -> bool {
        matches!(
            (v, t),
            (Val::Int(_), IrTy::I64) | (Val::Bit(_), IrTy::I1) | (Val::Float(_), IrTy::F64) | (Val::Ptr(_), IrTy::Ptr)
        )
    }

    fn call(&mut self, f: usize, args: Vec<Val>) -> Run<Val> {
        let funcs = self.funcs.clone();
        let func = &funcs[f];
        let mut vars = args;
        assert_eq!(vars.len(), func.params.len());
        vars.resize(func.slots.len(), Val::Int(0));
        let mut regs = vec![Val::Int(0); func.regs.len()];
        let mut b = 0;
        loop {
            let block = &func.blocks[b];
            for inst in &block.insts {
                let (dst, v) = match inst {
                    Inst::Op { dst, op, args } => {
                        let a: Vec<Val> = args.iter().map(|v| self.value(v, &regs)).collect();
                        let v = self.op(*op, &a, &mut vars)?;
                        (*dst, v)
                    }
                    Inst::Call { dst, func, args } => {
                        let a: Vec<Val> = args.iter().map(|v| self.value(v, &regs)).collect();
                        (*dst, self.call(*func, a)?)
                    }
                };
                assert!(self.fits(v, func.regs[dst]), "{:?} in a register of {:?}", v, func.regs[dst]);
                regs[dst] = v;
            }
            b = match &block.term {
                Term::Jump(to) => *to,
                Term::Branch { cond, then, els } => {
                    let c = self.value(cond, &regs);
                    if self.as_bit(c) {
                        *then
                    } else {
                        *els
                    }
                }
                Term::Switch { on, tags, targets, default } => {
                    let v = self.value(on, &regs);
                    let tag = self.as_int(v) as usize;
                    match tags.iter().position(|t| *t == tag) {
                        Some(i) => targets[i],
                        None => *default,
                    }
                }
                Term::Return(v) => {
                    let v = self.value(v, &regs);
                    assert!(self.fits(v, func.ret));
                    return Ok(v);
                }
                Term::Panic(m) => return Err(m.to_string()),
            };
        }
    }
}

/// What a program writes, and its exit code or the message it ends with.
fn run_with(src: &str, input: &[&str]) -> (String, Result<i64, String>) {
    let tokens = match lex(src, FileId(0)) {
        Ok(t) => t,
        Err(d) => panic!("{}", d.message),
    };
    let program = match parse(tokens) {
        Ok(p) => p,
        Err(d) => panic!("{}", d.message),
    };
    if let Err(d) = check(&program) {
        panic!("{}", d.message);
    }
    let module = lower_program(&program);
    let funcs: Vec<FlatFunc> = module.funcs.iter().map(|f| flatten(f).unwrap()).collect();
    let main = funcs.iter().position(|f| f.name == "main").unwrap();
    let mut m = Machine {
        funcs: std::rc::Rc::new(funcs),
        heap: Vec::new(),
        names: Vec::new(),
        out: String::new(),
        input: input.iter().map(|l| l.to_string()).collect(),
        files: Vec::new(),
    };
    let code = m.call(main, Vec::new()).map(|v| m.as_int(v));
    (m.out, code)
}

fn run(src: &str) -> String {
    let (out, code) = run_with(src, &[]);
    assert_eq!(code, Ok(0));
    out
}

fn stops(src: &str) -> String {
    run_with(src, &[]).1.unwrap_err()
}

#[test]
fn arithmetic() {
    let out = run("fn main() { print 1 + 2 * 3; print (1 + 2) * 3; print 7 / 2; print -7 / 2; print 7 % 3; print -7 % 3; print 10 - 4 - 3; return 0; }");
    assert_eq!(out, "7\n9\n3\n-3\n1\n-1\n3\n");
}

#[test]
fn fib() {
    let out = run("fn fib(n: int) -> int { if (n < 2) { return n; } return fib(n - 1) + fib(n - 2); } fn main() { print fib(10); print fib(20); return 0; }");
    assert_eq!(out, "55\n6765\n");
}

#[test]
fn control_flow() {
    let out = run("fn main() { let i = 0; while (i < 6) { if (i % 2 == 0) { print i; } else if (i == 3) { print 33; } else { print -i; } i = i + 1; } return 0; }");
    assert_eq!(out, "0\n-1\n2\n33\n4\n-5\n");
}

#[test]
fn gcd() {
    let out = run("fn gcd(a: int, b: int) -> int { while (b != 0) { let t = a % b; a = b; b = t; } return a; } fn main() { print gcd(48, 36); print gcd(17, 5); return 0; }");
    assert_eq!(out, "12\n1\n");
}

#[test]
fn bool_and_logic() {
    let out = run("fn main() { let a = true; let b = false; print a && b; print a || b; print !a; print 1 < 2 && 2 < 3; print a && !b; return 0; }");
    assert_eq!(out, "false\ntrue\nfalse\ntrue\ntrue\n");
}

#[test]
fn short_circuit() {
    let out = run("fn say(s: string, b: bool) -> bool { print s; return b; } fn main() { print say(\"a\", false) && say(\"b\", true); print say(\"c\", true) || say(\"d\", true); print say(\"e\", true) && say(\"f\", false); return 0; }");
    assert_eq!(out, "a\nfalse\nc\ntrue\ne\nf\nfalse\n");
}

#[test]
fn typed_fn() {
    let out = run("fn half(x: float) -> float { return x / 2.0; } fn neg(b: bool) -> bool { return !b; } fn hi(s: string) -> string { return \"hi \" + s; } fn main() { print half(5.0); print neg(true); print hi(\"you\"); return 0; }");
    assert_eq!(out, "2.5\nfalse\nhi you\n");
}

#[test]
fn float_math() {
    let out = run("fn main() { print 1.5 + 2.25; print 3.0 * 0.5; print 1.0 / 4.0; print -2.5; print 1.5 < 2.5; print 2.5 == 2.5; return 0; }");
    assert_eq!(out, "3.75\n1.5\n0.25\n-2.5\ntrue\ntrue\n");
}

#[test]
fn loops() {
    let out = run("fn main() { for (let i = 0; i < 10; i = i + 1) { if (i == 2) { continue; } if (i == 5) { break; } print i; } let n = 3; while (true) { if (n == 0) { break; } n = n - 1; } print n; return 0; }");
    assert_eq!(out, "0\n1\n3\n4\n0\n");
}

#[test]
fn strings() {
    let out = run("fn main() { let s = \"tab\\there\"; print s; print \"quote \\\" and \\\\\"; print \"a\" == \"a\"; print \"a\" < \"b\"; print \"\" == \"x\"; return 0; }");
    assert_eq!(out, "tab\there\nquote \" and \\\ntrue\ntrue\nfalse\n");
}

#[test]
fn conversions() {
    let out = run("fn main() { print int(3.9); print int(-3.9); print float(2) / 4.0; print int(\"42\") + 1; print float(\"1.5\"); return 0; }");
    assert_eq!(out, "3\n-3\n0.5\n43\n1.5\n");
}

#[test]
fn scope() {
    let out = run("fn main() { let x = 1; if (true) { let x = 2; print x; x = 3; print x; } print x; for (let i = 0; i < 1; i = i + 1) { let x = \"s\"; print x; } print x; return 0; }");
    assert_eq!(out, "2\n3\n1\ns\n1\n");
}

#[test]
fn string_concat() {
    let out = run("fn main() { let s = \"\"; for (let i = 0; i < 4; i = i + 1) { s = s + \"ab\" + str(i); } print s; print len(s); return 0; }");
    assert_eq!(out, "ab0ab1ab2ab3\n12\n");
}

#[test]
fn arrays() {
    let out = run("fn main() { let a = [3, 1, 2]; a[1] = 10; let sum = 0; for (let i = 0; i < len(a); i = i + 1) { sum = sum + a[i]; } print sum; print len([1.5]); let b = a; b[0] = 7; print a[0]; return 0; }");
    assert_eq!(out, "15\n1\n7\n");
}

#[test]
fn structs() {
    let out = run("struct P { x: int, y: float, name: string } fn main() { let p = P { y: 2.5, name: \"n\", x: 1 }; p.x = p.x + 4; print p.x; print p.y; print p.name; return 0; }");
    assert_eq!(out, "5\n2.5\nn\n");
}

#[test]
fn linked_list() {
    let out = run("struct Node { value: int, next: Node } fn main() { let head: Node = null; for (let i = 0; i < 3; i = i + 1) { head = Node { value: i, next: head }; } let n = head; while (n != null) { print n.value; n = n.next; } return 0; }");
    assert_eq!(out, "2\n1\n0\n");
}

#[test]
fn array_structs() {
    let out = run("struct P { x: int } fn main() { let ps = [P { x: 1 }, P { x: 2 }]; ps[1].x = 20; for (p in ps) { print p.x; } return 0; }");
    assert_eq!(out, "1\n20\n");
}

#[test]
fn stringify() {
    let out = run("fn main() { print str(12) + \"|\" + str(true) + \"|\" + str(1.5) + \"|\" + str(\"s\"); return 0; }");
    assert_eq!(out, "12|true|1.5|s\n");
}

#[test]
fn string_index() {
    let out = run("fn main() { let s = \"AZ\"; print s[0]; print s[1]; return 0; }");
    assert_eq!(out, "65\n90\n");
}

#[test]
fn string_sort() {
    let out = run("fn main() { for (s in sorted([\"pear\", \"apple\", \"fig\", \"app\"])) { print s; } return 0; }");
    assert_eq!(out, "app\napple\nfig\npear\n");
}

#[test]
fn chr_builtin() {
    let out = run("fn main() { print chr(72) + chr(105); return 0; }");
    assert_eq!(out, "Hi\n");
}

#[test]
fn read_line_stdin() {
    let (out, code) = run_with(
        "fn main() { let n = 0; let sum = 0; let line = read_line(); while (line != null) { n = n + 1; sum = sum + int(line); line = read_line(); } print n; print sum; return 0; }",
        &["10", "20", "30", "5"],
    );
    assert_eq!(code, Ok(0));
    assert_eq!(out, "4\n65\n");
}

#[test]
fn growable_arrays_push() {
    let out = run("fn main() { let a: [int] = []; for (let i = 0; i < 20; i = i + 1) { push(a, i * i); } print len(a); print a[0]; print a[19]; return 0; }");
    assert_eq!(out, "20\n0\n361\n");
}

#[test]
fn math_builtins() {
    let out = run("fn main() { print abs(-5); print abs(-1.5); print min(2, 3); print max(2, 3); print min(1.5, 0.5); print sqrt(16.0); print floor(1.7); print ceil(1.2); print pow(2.0, 10.0); return 0; }");
    assert_eq!(out, "5\n1.5\n2\n3\n0.5\n4\n1\n2\n1024\n");
}

#[test]
fn maps() {
    let out = run("fn main() { let m = {\"a\": 1, \"b\": 2}; m[\"c\"] = 3; m[\"a\"] = 10; print m[\"a\"]; print len(m); print has(m, \"b\"); delete(m, \"b\"); print has(m, \"b\"); print len(m); let f = {\"x\": 1.5}; print f[\"x\"]; let t = {\"y\": true}; print t[\"y\"]; return 0; }");
    assert_eq!(out, "10\n3\ntrue\nfalse\n2\n1.5\ntrue\n");
}

#[test]
fn map_keys_and_collisions() {
    let out = run("fn main() { let m: {string: int} = {}; for (let i = 0; i < 200; i = i + 1) { m[\"k\" + str(i)] = i; } print len(m); let sum = 0; for (k in keys(m)) { sum = sum + m[k]; } print sum; return 0; }");
    assert_eq!(out, "200\n19900\n");
}

#[test]
fn map_missing_key_aborts() {
    assert!(stops("fn main() { let m = {\"a\": 1}; print m[\"z\"]; return 0; }").contains("key not found"));
}

#[test]
fn for_in_loops() {
    let out = run("fn main() { for (x in [1, 2, 3, 4]) { if (x == 2) { continue; } if (x == 4) { break; } print x; } for (k in {\"only\": 1}) { print k; } for (x in [[1], [2, 3]]) { print len(x); } return 0; }");
    assert_eq!(out, "1\n3\nonly\n1\n2\n");
}

#[test]
fn string_toolkit() {
    let out = run("fn main() { print substr(\"hello\", 1, 3); print contains(\"hello\", \"ell\"); for (p in split(\"a,b,,c\", \",\")) { print \"<\" + p + \">\"; } print join([\"x\", \"y\"], \"-\"); print to_upper(\"aZ1\"); print to_lower(\"aZ1\"); return 0; }");
    assert_eq!(out, "ell\ntrue\n<a>\n<b>\n<>\n<c>\nx-y\nAZ1\naz1\n");
}

#[test]
fn substr_out_of_range_aborts() {
    assert!(stops("fn main() { print substr(\"abc\", 2, 5); return 0; }").contains("substr out of range"));
}

#[test]
fn the_end_of_a_substring_does_not_wrap_around() {
    assert!(stops("fn main() { print substr(\"abc\", 1, 9223372036854775807); return 0; }")
        .contains("substr out of range"));
}

#[test]
fn parse_numbers() {
    let out = run("fn main() { print is_int(\"12\"); print is_int(\"1x\"); print is_int(\"\"); print int(\"-7\"); print is_float(\"2.5\"); print is_float(\"x\"); return 0; }");
    assert_eq!(out, "true\nfalse\nfalse\n-7\ntrue\nfalse\n");
}

#[test]
fn nothing_stands_around_a_number() {
    let out = run("fn main() { print is_int(\" 42\"); print is_int(\"42 \"); print is_int(\"+42\"); print is_float(\" 1.5\"); print is_float(\"1.5e-3\"); print is_float(\"inf\"); print float(\"2.5e1\"); return 0; }");
    assert_eq!(out, "false\nfalse\ntrue\nfalse\ntrue\nfalse\n25\n");
    assert!(stops("fn main() { print int(\" 42\"); return 0; }").contains("non-integer string"));
    assert!(stops("fn main() { print float(\" 4.2\"); return 0; }").contains("non-number string"));
}

#[test]
fn a_walk_sees_the_elements_that_were_there() {
    let out = run("fn main() { let xs = [10, 20, 30]; for (v in xs) { xs = push(xs, v); print v; } print len(xs); for (v in xs) { print v; } return 0; }");
    assert_eq!(out, "10\n20\n30\n6\n10\n20\n30\n10\n20\n30\n");
    let none = run("fn main() { let xs: [int] = []; for (v in xs) { xs = push(xs, v); } print len(xs); return 0; }");
    assert_eq!(none, "0\n");
}

#[test]
fn division_rounds_toward_zero() {
    let out = run("fn main() { print 7 / 2; print -7 / 2; print 7 / -2; print -7 / -2; print 7 % 2; print -7 % 2; print 7 % -2; print -7 % -2; return 0; }");
    assert_eq!(out, "3\n-3\n-3\n3\n1\n-1\n1\n-1\n");
}

#[test]
fn parse_bad_int_aborts() {
    assert!(stops("fn main() { print int(\"abc\"); return 0; }").contains("non-integer string"));
}

#[test]
fn file_io_roundtrip() {
    let out = run("fn main() { print write_file(\"f.txt\", \"text\"); print read_file(\"f.txt\"); print read_file(\"none\") == null; return 0; }");
    assert_eq!(out, "true\ntext\ntrue\n");
}

#[test]
fn nested_collections() {
    let out = run("fn main() { let g = [[1, 2], [3, 4]]; g[1][0] = 30; print g[1][0] + g[0][1]; let m = {\"a\": [1, 2, 3]}; push(m[\"a\"], 4); print len(m[\"a\"]); return 0; }");
    assert_eq!(out, "32\n4\n");
}

#[test]
fn string_methods() {
    let out = run("fn main() { print trim(\"  x \\t\"); print find(\"hello\", \"l\"); print find(\"hello\", \"z\"); print starts_with(\"hello\", \"he\"); print ends_with(\"hello\", \"lo\"); print ends_with(\"o\", \"lo\"); return 0; }");
    assert_eq!(out, "x\n2\n-1\ntrue\ntrue\nfalse\n");
}

#[test]
fn string_replace_repeat() {
    let out = run("fn main() { print replace(\"a-b-c\", \"-\", \"+\"); print repeat(\"ab\", 3); print repeat(\"ab\", -1) + \"|\"; return 0; }");
    assert_eq!(out, "a+b+c\nababab\n|\n");
}

#[test]
fn slice_and_pop() {
    let out = run("fn main() { let a = [1, 2, 3, 4]; let b = a[1:3]; b[0] = 20; print a[1]; print b[0]; print len(a[:2]); print len(a[2:]); print pop(a); print len(a); print \"hello\"[1:4]; return 0; }");
    assert_eq!(out, "2\n20\n2\n2\n4\n3\nell\n");
}

#[test]
fn slice_out_of_range_aborts() {
    assert!(stops("fn main() { let a = [1, 2]; print len(a[1:5]); return 0; }").contains("slice out of range"));
}

#[test]
fn pop_empty_aborts() {
    assert!(stops("fn main() { let a: [int] = []; print pop(a); return 0; }").contains("pop from empty array"));
}

#[test]
fn sort_lines_stdin() {
    let (out, code) = run_with(
        "fn main() { let lines: [string] = []; let l = read_line(); while (l != null) { push(lines, l); l = read_line(); } for (s in sorted(lines)) { print s; } return 0; }",
        &["pear", "banana", "apple", "cherry", "fig", "kiwi"],
    );
    assert_eq!(code, Ok(0));
    assert_eq!(out, "apple\nbanana\ncherry\nfig\nkiwi\npear\n");
}

#[test]
fn oob_runtime_check() {
    assert!(stops("fn main() { let a = [1, 2]; print a[2]; return 0; }").contains("out of bounds"));
    assert!(stops("fn main() { let a = [1, 2]; print a[-1]; return 0; }").contains("out of bounds"));
    assert!(stops("fn main() { print \"ab\"[2]; return 0; }").contains("out of bounds"));
}

#[test]
fn div_zero_runtime_check() {
    assert!(stops("fn main() { let z = 0; print 1 / z; return 0; }").contains("division by zero"));
    assert!(stops("fn main() { let z = 0; print 1 % z; return 0; }").contains("division by zero"));
}

#[test]
fn null_deref_runtime_check() {
    assert!(stops("struct N { v: int } fn main() { let n: N = null; print n.v; return 0; }").contains("null reference"));
}

#[test]
fn sum_types_and_match() {
    let out = run("enum Shape { Circle(float), Rect(float, float), Empty } fn area(s: Shape) -> float { match (s) { Circle(r) => { return r * r; } Rect(w, h) => { return w * h; } Empty => { return 0.0; } } return -1.0; } fn main() { print area(Circle(2.0)); print area(Rect(2.0, 3.5)); print area(Empty); match (Circle(1.0)) { Rect(a, b) => { print a + b; } _ => { print \"other\"; } } return 0; }");
    assert_eq!(out, "4\n7\n0\nother\n");
}

#[test]
fn interpolation() {
    let out = run("fn main() { let n = 3; let name = \"x\"; print \"{name} is {n * 2 + 1}!\"; return 0; }");
    assert_eq!(out, "x is 7!\n");
}

#[test]
fn exit_code_is_what_main_returns() {
    assert_eq!(run_with("fn main() { return 3; }", &[]).1, Ok(3));
    assert_eq!(run_with("fn main() { }", &[]).1, Ok(0));
}

#[test]
fn bit_operators() {
    let out = run("fn main() { print 6 & 3; print 6 | 3; print 6 ^ 3; print ~0; print 1 << 4; print -16 >> 2; return 0; }");
    assert_eq!(out, "2\n7\n5\n-1\n16\n-4\n");
}

#[test]
fn what_is_put_is_read_back() {
    let out = run("fn main() { let m = {\"a\": 1}; m[\"b\"] = 2; m[\"a\"] = 3; print m[\"a\"]; print m[\"b\"]; print len(m); delete(m, \"a\"); print has(m, \"a\"); print m[\"b\"]; print len(keys(m)); let f = {\"x\": true}; f[\"y\"] = false; print f[\"x\"]; print f[\"y\"]; return 0; }");
    assert_eq!(out, "3\n2\n2\nfalse\n2\n1\ntrue\nfalse\n");
    let out = run("fn main() { let m = {\"k\": 1, \"j\": 5, \"k\": 2}; print m[\"k\"]; print len(m); return 0; }");
    assert_eq!(out, "2\n2\n");
}

#[test]
fn split_strings_join_again() {
    let out = run("fn main() { print join(split(\"a,,b,\", \",\"), \",\"); print len(split(\"a,,b,\", \",\")); print join(split(\"abc\", \"\"), \"-\"); return 0; }");
    assert_eq!(out, "a,,b,\n4\nabc\n");
}

#[test]
fn numbers_are_read_back() {
    let out = run("fn main() { print int(str(-42)); print int(str(9223372036854775807)); print int(str(0)); return 0; }");
    assert_eq!(out, "-42\n9223372036854775807\n0\n");
}

#[test]
fn sorting_makes_a_new_array() {
    let out = run("fn main() { let a = [3, 1, 2, 1]; let b = sorted(a); print a[0]; print b[0]; print b[1]; print b[3]; let c = reversed(b); print c[0]; print b[0]; let d = a[1:3]; d[0] = 9; print a[1]; print len(d); let s = sorted([\"b\", \"ab\", \"a\"]); print s[0]; print s[1]; return 0; }");
    assert_eq!(out, "3\n1\n1\n3\n3\n1\n1\n2\na\nab\n");
}
