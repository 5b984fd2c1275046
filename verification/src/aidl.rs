//! A reader for AIDL interface files and a generator of Rust trait skeletons from them.

use vstd::prelude::*;
use crate::text::{has_suffix, push_str, chars_of, lines, spec_lines, trim, trim_chars, strip_end, strip_end_chars, words, words_of,
    has_prefix, starts_with, first_occurrence, last_occurrence, find_from, rfind, split_chars, split_fields,
    chars_eq, string_from_chars, occurs_at, copy_range, lemma_first_occurrence_bounds, lemma_last_occurrence_bounds};

verus! {

#[derive(Debug, Clone, Copy, PartialEq, Eq, Structural)]
pub enum ParameterDirection {
    In,
    Out,
    InOut,
}

#[derive(Debug, Clone)]
pub struct AidlParameter {
    pub direction: ParameterDirection,
    pub ty: String,
    pub name: String,
}

#[derive(Debug, Clone)]
pub struct AidlMethod {
    pub name: String,
    pub return_type: String,
    pub parameters: Vec<AidlParameter>,
}

#[derive(Debug, Clone)]
pub struct AidlInterface {
    pub name: String,
    pub methods: Vec<AidlMethod>,
}

#[derive(Debug, Clone)]
pub struct AidlFile {
    pub package: Option<String>,
    pub interfaces: Vec<AidlInterface>,
}

/// A parse error: the 1-based line and what was wrong.
#[derive(Debug, Clone)]
pub struct AidlError {
    pub line: usize,
    pub message: String,
}

pub struct ParamModel {
    pub direction: ParameterDirection,
    pub ty: Seq<char>,
    pub name: Seq<char>,
}

pub struct MethodModel {
    pub name: Seq<char>,
    pub return_type: Seq<char>,
    pub parameters: Seq<ParamModel>,
}

pub struct InterfaceModel {
    pub name: Seq<char>,
    pub methods: Seq<MethodModel>,
}

pub struct FileModel {
    pub package: Option<Seq<char>>,
    pub interfaces: Seq<InterfaceModel>,
}

impl View for AidlParameter {
    type V = ParamModel;

    open spec fn view(&self) -> ParamModel {
        ParamModel { direction: self.direction, ty: self.ty@, name: self.name@ }
    }
}

impl View for AidlMethod {
    type V = MethodModel;

    open spec fn view(&self) -> MethodModel {
        MethodModel {
            name: self.name@,
            return_type: self.return_type@,
            parameters: self.parameters@.map_values(|p: AidlParameter| p@),
        }
    }
}

impl View for AidlInterface {
    type V = InterfaceModel;

    open spec fn view(&self) -> InterfaceModel {
        InterfaceModel { name: self.name@, methods: self.methods@.map_values(|m: AidlMethod| m@) }
    }
}

impl View for AidlFile {
    type V = FileModel;

    open spec fn view(&self) -> FileModel {
        FileModel {
            package: match self.package {
                Some(p) => Some(p@),
                None => None,
            },
            interfaces: self.interfaces@.map_values(|i: AidlInterface| i@),
        }
    }
}

/// A parameter declaration: an optional direction, a type and a name.
pub open spec fn spec_parameter(p: Seq<char>) -> Option<ParamModel> {
    let t = words(p);
    let (d, off) = if t.len() > 0 && t[0] == "in"@ {
        (ParameterDirection::In, 1int)
    } else if t.len() > 0 && t[0] == "out"@ {
        (ParameterDirection::Out, 1int)
    } else if t.len() > 0 && t[0] == "inout"@ {
        (ParameterDirection::InOut, 1int)
    } else {
        (ParameterDirection::In, 0int)
    };
    if t.len() < off + 2 {
        None
    } else {
        Some(ParamModel { direction: d, ty: t[off], name: t[off + 1] })
    }
}

/// The parameters among the first `k` comma-separated pieces, blank pieces skipped; `None`
/// when one of them is malformed.
pub open spec fn spec_params(ps: Seq<Seq<char>>, k: int) -> Option<Seq<ParamModel>>
    decreases k,
{
    if k <= 0 {
        Some(Seq::empty())
    } else {
        match spec_params(ps, k - 1) {
            None => None,
            Some(acc) => if trim(ps[k - 1]).len() == 0 {
                Some(acc)
            } else {
                match spec_parameter(ps[k - 1]) {
                    None => None,
                    Some(p) => Some(acc.push(p)),
                }
            },
        }
    }
}

/// What the reader keeps between lines.
pub struct WalkState {
    pub package: Option<Seq<char>>,
    pub interfaces: Seq<InterfaceModel>,
    pub current: Option<InterfaceModel>,
}

/// The effect of one line.
pub enum Step {
    Next(WalkState),
    Fail(Seq<char>),
    Panic,
}

/// The outcome of reading a whole file.
pub enum Outcome {
    Done(FileModel),
    Failed(int, Seq<char>),
    Panics,
}

/// A line without its `//` comment, trimmed.
pub open spec fn clean(raw: Seq<char>) -> Seq<char> {
    trim(
        match first_occurrence(raw, "//"@, 0) {
            Some(i) => raw.subrange(0, i),
            None => raw,
        },
    )
}

/// A method line of the current interface: return type and name before `(`, parameters
/// between it and the last `)`.
pub open spec fn method_step(line: Seq<char>, st: WalkState) -> Step {
    let open = first_occurrence(line, "("@, 0)->0;
    match last_occurrence(line, ")"@, line.len() + 1int) {
        None => Step::Fail("missing ')'"@),
        Some(close) => if close < open {
            Step::Panic
        } else {
            let head = words(line.subrange(0, open));
            if head.len() < 2 {
                Step::Fail("method requires return type and name"@)
            } else {
                let pieces = split_fields(line.subrange(open + 1, close), ',');
                match spec_params(pieces, pieces.len() as int) {
                    None => Step::Fail("parameter requires type and name"@),
                    Some(ps) => {
                        let m = MethodModel { return_type: head[head.len() - 2], name: head[head.len() - 1], parameters: ps };
                        let c = st.current->0;
                        Step::Next(WalkState {
                            package: st.package,
                            interfaces: st.interfaces,
                            current: Some(InterfaceModel { name: c.name, methods: c.methods.push(m) }),
                        })
                    },
                }
            }
        },
    }
}

/// The effect of one source line.
pub open spec fn spec_step(raw: Seq<char>, st: WalkState) -> Step {
    let line = clean(raw);
    if line.len() == 0 || has_prefix(line, "import "@) {
        Step::Next(st)
    } else if has_prefix(line, "package "@) {
        Step::Next(WalkState {
            package: Some(trim(strip_end(line.subrange(8, line.len() as int), ';'))),
            interfaces: st.interfaces,
            current: st.current,
        })
    } else if has_prefix(line, "interface "@) || has_prefix(line, "oneway interface "@) {
        let w = words(line);
        let k: int = if has_prefix(line, "oneway"@) { 2 } else { 1 };
        let name = strip_end(if k < w.len() { w[k] } else { Seq::empty() }, '{');
        if name.len() == 0 {
            Step::Fail("missing interface name"@)
        } else {
            Step::Next(WalkState {
                package: st.package,
                interfaces: st.interfaces,
                current: Some(InterfaceModel { name, methods: Seq::empty() }),
            })
        }
    } else if line == "}"@ || line == "};"@ {
        match st.current {
            Some(i) => Step::Next(WalkState { package: st.package, interfaces: st.interfaces.push(i), current: None }),
            None => Step::Next(st),
        }
    } else if st.current is Some && first_occurrence(line, "("@, 0) is Some {
        method_step(line, st)
    } else {
        Step::Next(st)
    }
}

/// Reads the lines from `k` on, in state `st`.
pub open spec fn walk(ls: Seq<Seq<char>>, k: int, st: WalkState) -> Outcome
    decreases ls.len() - k,
{
    if k < 0 || k >= ls.len() {
        Outcome::Done(FileModel {
            package: st.package,
            interfaces: match st.current {
                Some(i) => st.interfaces.push(i),
                None => st.interfaces,
            },
        })
    } else {
        match spec_step(ls[k], st) {
            Step::Next(s2) => walk(ls, k + 1, s2),
            Step::Fail(m) => Outcome::Failed(k + 1, m),
            Step::Panic => Outcome::Panics,
        }
    }
}

/// What reading `src` gives.
pub open spec fn spec_parse(src: Seq<char>) -> Outcome {
    walk(spec_lines(src), 0, WalkState { package: None, interfaces: Seq::empty(), current: None })
}


proof fn lemma_params_none_stays(ps: Seq<Seq<char>>, k: int, j: int)
    requires
        0 <= k <= j,
        spec_params(ps, k) is None,
    ensures
        spec_params(ps, j) is None,
    decreases j - k,
{
    if j > k {
        lemma_params_none_stays(ps, k, j - 1);
    }
}

fn parse_parameter(p: &[char]) -> (r: Option<AidlParameter>)
    ensures
        match spec_parameter(p@) {
            Some(m) => r matches Some(a) && a@ == m,
            None => r is None,
        },
{
    let t = words_of(p);
    let n = t.len();
    let (d, off): (ParameterDirection, usize) = if n > 0 && chars_eq(t[0].as_slice(), chars_of("in").as_slice()) {
        (ParameterDirection::In, 1)
    } else if n > 0 && chars_eq(t[0].as_slice(), chars_of("out").as_slice()) {
        (ParameterDirection::Out, 1)
    } else if n > 0 && chars_eq(t[0].as_slice(), chars_of("inout").as_slice()) {
        (ParameterDirection::InOut, 1)
    } else {
        (ParameterDirection::In, 0)
    };
    if n < off + 2 {
        return None;
    }
    Some(AidlParameter {
        direction: d,
        ty: string_from_chars(t[off].as_slice()),
        name: string_from_chars(t[off + 1].as_slice()),
    })
}

/// The reader's state between lines.
struct Reader {
    package: Option<String>,
    interfaces: Vec<AidlInterface>,
    current: Option<AidlInterface>,
}

impl Reader {
    spec fn state(&self) -> WalkState {
        WalkState {
            package: match self.package {
                Some(p) => Some(p@),
                None => None,
            },
            interfaces: self.interfaces@.map_values(|i: AidlInterface| i@),
            current: match self.current {
                Some(i) => Some(i@),
                None => None,
            },
        }
    }
}

fn parse_params(inner: &[char]) -> (r: Option<Vec<AidlParameter>>)
    ensures
        ({
            let ps = split_fields(inner@, ',');
            match spec_params(ps, ps.len() as int) {
                Some(m) => r matches Some(v) && v@.map_values(|a: AidlParameter| a@) == m,
                None => r is None,
            }
        }),
{
    let pieces = split_chars(inner, ',');
    let ghost ps = split_fields(inner@, ',');
    let mut out: Vec<AidlParameter> = Vec::new();
    let mut k: usize = 0;
    while k < pieces.len()
        invariant
            0 <= k <= pieces@.len(),
            ps == split_fields(inner@, ','),
            pieces@.len() == ps.len(),
            forall|j: int| 0 <= j < pieces@.len() ==> #[trigger] pieces@[j]@ == ps[j],
            spec_params(ps, k as int) == Some(out@.map_values(|a: AidlParameter| a@)),
        decreases pieces@.len() - k,
    {
        let piece = pieces[k].as_slice();
        assert(piece@ == ps[k as int]);
        let t = trim_chars(piece);
        if t.len() != 0 {
            match parse_parameter(piece) {
                Some(a) => {
                    let ghost before = out@;
                    out.push(a);
                    assert(out@.map_values(|a: AidlParameter| a@) =~= before.map_values(|a: AidlParameter| a@).push(a@));
                },
                None => {
                    proof {
                        assert(spec_params(ps, k + 1) is None);
                        lemma_params_none_stays(ps, k + 1, ps.len() as int);
                    }
                    return None;
                },
            }
        }
        k = k + 1;
    }
    Some(out)
}

fn method_line(line: &[char], open: usize, rd: &mut Reader) -> (r: Result<(), &'static str>)
    requires
        first_occurrence(line@, "("@, 0) == Some(open as int),
        old(rd).current is Some,
        !(method_step(line@, old(rd).state()) is Panic),
    ensures
        match method_step(line@, old(rd).state()) {
            Step::Next(s2) => r is Ok && final(rd).state() == s2,
            Step::Fail(m) => r matches Err(e) && e@ == m,
            Step::Panic => true,
        },
{
    proof {
        lemma_first_occurrence_bounds(line@, "("@, 0);
        reveal_strlit("(");
        reveal_strlit(")");
        lemma_last_occurrence_bounds(line@, ")"@, line@.len() + 1int);
    }
    let ln = line.len();
    let close_pat = chars_of(")");
    assert(close_pat@ == ")"@);
    let close = match rfind(line, close_pat.as_slice()) {
        None => return Err("missing ')'"),
        Some(c) => c,
    };
    proof {
        let j = last_occurrence(line@, ")"@, line@.len() + 1int)->0;
        assert(0 <= j <= line@.len());
        assert(close == j as usize);
        assert(last_occurrence(line@, ")"@, line@.len() + 1int) == Some(close as int));
        assert(close as int >= open as int);
        assert(line@[open as int] == line@.subrange(open as int, open + 1)[0]);
        assert(line@[close as int] == line@.subrange(close as int, close + 1)[0]);
        assert(line@[open as int] == '(');
        assert(line@[close as int] == ')');
    }
    let head = words_of(copy_range(line, 0, open).as_slice());
    let hn = head.len();
    if hn < 2 {
        return Err("method requires return type and name");
    }
    let params = match parse_params(copy_range(line, open + 1, close).as_slice()) {
        None => return Err("parameter requires type and name"),
        Some(v) => v,
    };
    let m = AidlMethod {
        return_type: string_from_chars(head[hn - 2].as_slice()),
        name: string_from_chars(head[hn - 1].as_slice()),
        parameters: params,
    };
    let mut cur = rd.current.take().unwrap();
    let ghost before = cur.methods@;
    cur.methods.push(m);
    assert(cur.methods@.map_values(|x: AidlMethod| x@) =~= before.map_values(|x: AidlMethod| x@).push(m@));
    rd.current = Some(cur);
    Ok(())
}

fn step(raw: &[char], rd: &mut Reader) -> (r: Result<(), &'static str>)
    requires
        !(spec_step(raw@, old(rd).state()) is Panic),
    ensures
        match spec_step(raw@, old(rd).state()) {
            Step::Next(s2) => r is Ok && final(rd).state() == s2,
            Step::Fail(m) => r matches Err(e) && e@ == m,
            Step::Panic => true,
        },
{
    proof {
        lemma_first_occurrence_bounds(raw@, "//"@, 0);
    }
    let comment = chars_of("//");
    assert(comment@ == "//"@);
    let rn = raw.len();
    let found = find_from(raw, comment.as_slice(), 0);
    let pre = match found {
        Some(i) => {
            proof {
                let j = first_occurrence(raw@, "//"@, 0)->0;
                assert(0 <= j <= raw@.len());
                assert(i == j as usize);
            }
            assert(first_occurrence(raw@, "//"@, 0) == Some(i as int));
            copy_range(raw, 0, i)
        },
        None => {
            assert(first_occurrence(raw@, "//"@, 0) is None);
            copy_range(raw, 0, raw.len())
        },
    };
    assert(raw@.subrange(0, raw@.len() as int) =~= raw@);
    assert(pre@ == (match first_occurrence(raw@, "//"@, 0) {
        Some(i) => raw@.subrange(0, i),
        None => raw@,
    }));
    let line = trim_chars(pre.as_slice());
    assert(line@ == clean(raw@));
    let n = line.len();
    if n == 0 || starts_with(line.as_slice(), chars_of("import ").as_slice()) {
        return Ok(());
    }
    if starts_with(line.as_slice(), chars_of("package ").as_slice()) {
        proof {
            reveal_strlit("package ");
        }
        let rest = copy_range(line.as_slice(), 8, n);
        let stripped = strip_end_chars(rest.as_slice(), ';');
        let t = trim_chars(stripped.as_slice());
        rd.package = Some(string_from_chars(t.as_slice()));
        return Ok(());
    }
    if starts_with(line.as_slice(), chars_of("interface ").as_slice())
        || starts_with(line.as_slice(), chars_of("oneway interface ").as_slice()) {
        let w = words_of(line.as_slice());
        let k: usize = if starts_with(line.as_slice(), chars_of("oneway").as_slice()) { 2 } else { 1 };
        let raw_name: Vec<char> = if k < w.len() { copy_range(w[k].as_slice(), 0, w[k].len()) } else { Vec::new() };
        proof {
            if k < w@.len() {
                assert(w@[k as int]@.subrange(0, w@[k as int]@.len() as int) =~= w@[k as int]@);
            } else {
                assert(raw_name@ =~= Seq::<char>::empty());
            }
        }
        let name = strip_end_chars(raw_name.as_slice(), '{');
        if name.len() == 0 {
            return Err("missing interface name");
        }
        rd.current = Some(AidlInterface { name: string_from_chars(name.as_slice()), methods: Vec::new() });
        proof {
            assert(rd.current->0.methods@.map_values(|x: AidlMethod| x@) =~= Seq::<MethodModel>::empty());
        }
        return Ok(());
    }
    if chars_eq(line.as_slice(), chars_of("}").as_slice()) || chars_eq(line.as_slice(), chars_of("};").as_slice()) {
        match rd.current.take() {
            Some(i) => {
                let ghost before = rd.interfaces@;
                rd.interfaces.push(i);
                assert(rd.interfaces@.map_values(|x: AidlInterface| x@) =~= before.map_values(|x: AidlInterface| x@).push(i@));
            },
            None => {},
        }
        return Ok(());
    }
    if rd.current.is_some() {
        proof {
            lemma_first_occurrence_bounds(line@, "("@, 0);
        }
        match find_from(line.as_slice(), chars_of("(").as_slice(), 0) {
            Some(open) => {
                return method_line(line.as_slice(), open, rd);
            },
            None => {},
        }
    }
    Ok(())
}

/// Reads an AIDL file: its package, and each interface with its methods and their
/// parameters. A line that cannot be read is an error naming that line.
pub fn parse(source: &str) -> (r: Result<AidlFile, AidlError>)
    requires
        !(spec_parse(source@) is Panics),
    ensures
        match spec_parse(source@) {
            Outcome::Done(f) => r matches Ok(a) && a@ == f,
            Outcome::Failed(line, m) => r matches Err(e) && e.line == line && e.message@ == m,
            Outcome::Panics => false,
        },
{
    let chars = chars_of(source);
    let ls = lines(chars.as_slice());
    let ghost sl = spec_lines(source@);
    let mut rd = Reader { package: None, interfaces: Vec::new(), current: None };
    assert(rd.state().interfaces =~= Seq::<InterfaceModel>::empty());
    let mut k: usize = 0;
    while k < ls.len()
        invariant
            0 <= k <= ls@.len(),
            ls@.len() == sl.len(),
            forall|j: int| 0 <= j < ls@.len() ==> #[trigger] ls@[j]@ == sl[j],
            walk(sl, k as int, rd.state()) == spec_parse(source@),
            !(spec_parse(source@) is Panics),
        decreases ls@.len() - k,
    {
        assert(ls@[k as int]@ == sl[k as int]);
        match step(ls[k].as_slice(), &mut rd) {
            Ok(()) => {},
            Err(m) => {
                return Err(AidlError { line: k + 1, message: m.to_string() });
            },
        }
        k = k + 1;
    }
    let ghost before = rd.interfaces@;
    match rd.current {
        Some(i) => {
            rd.interfaces.push(i);
            assert(rd.interfaces@.map_values(|x: AidlInterface| x@) =~= before.map_values(|x: AidlInterface| x@).push(i@));
        },
        None => {},
    }
    Ok(AidlFile { package: rd.package, interfaces: rd.interfaces })
}


/// The Rust type for an AIDL type: arrays become `Vec`s, primitives their Rust counterparts,
/// anything else a parcel value.
pub open spec fn spec_rust_type(ty: Seq<char>) -> Seq<char>
    decreases ty.len(),
{
    if ty.len() >= 2 && has_suffix(ty, "[]"@) {
        "Vec<"@ + spec_rust_type(ty.subrange(0, ty.len() - 2)) + ">"@
    } else if ty == "void"@ {
        "()"@
    } else if ty == "byte"@ {
        "i8"@
    } else if ty == "int"@ {
        "i32"@
    } else if ty == "long"@ {
        "i64"@
    } else if ty == "float"@ {
        "f32"@
    } else if ty == "double"@ {
        "f64"@
    } else if ty == "boolean"@ {
        "bool"@
    } else if ty == "String"@ {
        "String"@
    } else {
        "ParcelValue"@
    }
}

/// A parameter as a Rust argument: by value when it is an input, by `&mut` otherwise.
pub open spec fn arg_text(p: ParamModel) -> Seq<char> {
    p.name + ": "@ + if p.direction is In {
        spec_rust_type(p.ty)
    } else {
        "&mut "@ + spec_rust_type(p.ty)
    }
}

/// The first `k` arguments, separated by `", "`.
pub open spec fn args_text(ps: Seq<ParamModel>, k: int) -> Seq<char>
    decreases k,
{
    if k <= 0 {
        Seq::empty()
    } else if k == 1 {
        arg_text(ps[0])
    } else {
        args_text(ps, k - 1) + ", "@ + arg_text(ps[k - 1])
    }
}

/// A method as a trait method declaration.
pub open spec fn method_text(m: MethodModel) -> Seq<char> {
    let args = args_text(m.parameters, m.parameters.len() as int);
    "    fn "@ + m.name + "(&mut self"@ + (if args.len() == 0 { ""@ } else { ", "@ }) + args + ") -> "@
        + spec_rust_type(m.return_type) + ";\n"@
}

pub open spec fn methods_text(ms: Seq<MethodModel>, k: int) -> Seq<char>
    decreases k,
{
    if k <= 0 { Seq::empty() } else { methods_text(ms, k - 1) + method_text(ms[k - 1]) }
}

/// An interface as a trait and a stub type.
pub open spec fn interface_text(i: InterfaceModel) -> Seq<char> {
    "pub trait "@ + i.name + " {\n"@ + methods_text(i.methods, i.methods.len() as int) + "}\n\n"@ + "pub struct "@
        + i.name + "Stub<T> { pub implementation: T }\n"@
}

pub open spec fn interfaces_text(is: Seq<InterfaceModel>, k: int) -> Seq<char>
    decreases k,
{
    if k <= 0 { Seq::empty() } else { interfaces_text(is, k - 1) + interface_text(is[k - 1]) }
}

/// The Rust source generated for a file: a comment naming its package, then each interface.
pub open spec fn spec_generate(f: FileModel) -> Seq<char> {
    (match f.package {
        Some(p) => "// package: "@ + p + "\n"@,
        None => Seq::empty(),
    }) + interfaces_text(f.interfaces, f.interfaces.len() as int)
}

fn push_chars(out: &mut Vec<char>, s: &[char])
    ensures
        final(out)@ == old(out)@ + s@,
{
    let mut i: usize = 0;
    while i < s.len()
        invariant
            0 <= i <= s@.len(),
            out@ == old(out)@ + s@.subrange(0, i as int),
        decreases s@.len() - i,
    {
        out.push(s[i]);
        i = i + 1;
        assert(out@ =~= old(out)@ + s@.subrange(0, i as int));
    }
    assert(s@.subrange(0, s@.len() as int) =~= s@);
}

fn rust_type(ty: &[char]) -> (r: Vec<char>)
    ensures
        r@ == spec_rust_type(ty@),
    decreases ty@.len(),
{
    let n = ty.len();
    let mut out: Vec<char> = Vec::new();
    if n >= 2 && ty[n - 2] == '[' && ty[n - 1] == ']' {
        proof {
            reveal_strlit("[]");
            assert(ty@.subrange(n - 2, n as int) =~= "[]"@);
        }
        push_str(&mut out, "Vec<");
        let inner = rust_type(crate::text::copy_range(ty, 0, n - 2).as_slice());
        push_chars(&mut out, inner.as_slice());
        push_str(&mut out, ">");
        assert(out@ =~= spec_rust_type(ty@));
        return out;
    }
    proof {
        if n >= 2 && has_suffix(ty@, "[]"@) {
            reveal_strlit("[]");
            assert(ty@[n - 2] == ty@.subrange(n - 2, n as int)[0]);
            assert(ty@[n - 1] == ty@.subrange(n - 2, n as int)[1]);
        }
    }
    let t = ty;
    let name: &str = if chars_eq(t, chars_of("void").as_slice()) {
        "()"
    } else if chars_eq(t, chars_of("byte").as_slice()) {
        "i8"
    } else if chars_eq(t, chars_of("int").as_slice()) {
        "i32"
    } else if chars_eq(t, chars_of("long").as_slice()) {
        "i64"
    } else if chars_eq(t, chars_of("float").as_slice()) {
        "f32"
    } else if chars_eq(t, chars_of("double").as_slice()) {
        "f64"
    } else if chars_eq(t, chars_of("boolean").as_slice()) {
        "bool"
    } else if chars_eq(t, chars_of("String").as_slice()) {
        "String"
    } else {
        "ParcelValue"
    };
    push_str(&mut out, name);
    assert(out@ =~= spec_rust_type(ty@));
    out
}

fn push_arg(out: &mut Vec<char>, p: &AidlParameter)
    ensures
        final(out)@ == old(out)@ + arg_text(p@),
{
    let ty = rust_type(chars_of(p.ty.as_str()).as_slice());
    push_str(out, p.name.as_str());
    push_str(out, ": ");
    match p.direction {
        ParameterDirection::In => {},
        _ => push_str(out, "&mut "),
    }
    push_chars(out, ty.as_slice());
    assert(out@ =~= old(out)@ + arg_text(p@));
}

fn push_method(out: &mut Vec<char>, m: &AidlMethod)
    ensures
        final(out)@ == old(out)@ + method_text(m@),
{
    let ghost ps = m@.parameters;
    let mut args: Vec<char> = Vec::new();
    let n = m.parameters.len();
    let mut k: usize = 0;
    while k < n
        invariant
            0 <= k <= n,
            n == m.parameters@.len(),
            ps == m.parameters@.map_values(|a: AidlParameter| a@),
            args@ == args_text(ps, k as int),
        decreases n - k,
    {
        let ghost before = args@;
        if k > 0 {
            push_str(&mut args, ", ");
        }
        push_arg(&mut args, &m.parameters[k]);
        proof {
            assert(ps[k as int] == m.parameters@[k as int]@);
            if k == 0 {
                assert(args@ =~= args_text(ps, 1));
            } else {
                assert(args@ =~= args_text(ps, k + 1));
            }
        }
        k = k + 1;
    }
    let ret = rust_type(chars_of(m.return_type.as_str()).as_slice());
    assert(ps.len() == n);
    assert(args@ == args_text(m@.parameters, m@.parameters.len() as int));
    let ghost args_part = (if args@.len() == 0 { ""@ } else { ", "@ });
    push_str(out, "    fn ");
    push_str(out, m.name.as_str());
    push_str(out, "(&mut self");
    let ghost mid = out@;
    if args.len() != 0 {
        push_str(out, ", ");
    } else {
        assert(""@ == Seq::<char>::empty()) by {
            reveal_strlit("");
        }
    }
    assert(out@ =~= mid + args_part);
    push_chars(out, args.as_slice());
    push_str(out, ") -> ");
    push_chars(out, ret.as_slice());
    push_str(out, ";\n");
    assert(out@ =~= old(out)@ + method_text(m@));
}

fn push_interface(out: &mut Vec<char>, i: &AidlInterface)
    ensures
        final(out)@ == old(out)@ + interface_text(i@),
{
    let ghost ms = i@.methods;
    let mut body: Vec<char> = Vec::new();
    let n = i.methods.len();
    let mut k: usize = 0;
    while k < n
        invariant
            0 <= k <= n,
            n == i.methods@.len(),
            ms == i.methods@.map_values(|m: AidlMethod| m@),
            body@ == methods_text(ms, k as int),
        decreases n - k,
    {
        push_method(&mut body, &i.methods[k]);
        assert(ms[k as int] == i.methods@[k as int]@);
        k = k + 1;
    }
    push_str(out, "pub trait ");
    push_str(out, i.name.as_str());
    push_str(out, " {\n");
    push_chars(out, body.as_slice());
    push_str(out, "}\n\n");
    push_str(out, "pub struct ");
    push_str(out, i.name.as_str());
    push_str(out, "Stub<T> { pub implementation: T }\n");
    assert(out@ =~= old(out)@ + interface_text(i@));
}

/// The Rust source for a parsed file: a trait per interface, one method per AIDL method, with
/// a stub type beside it.
pub fn generate_rust(file: &AidlFile) -> (r: String)
    ensures
        r@ == spec_generate(file@),
{
    let mut out: Vec<char> = Vec::new();
    match &file.package {
        Some(p) => {
            push_str(&mut out, "// package: ");
            push_str(&mut out, p.as_str());
            push_str(&mut out, "\n");
        },
        None => {},
    }
    let ghost head = out@;
    assert(head == (match file@.package {
        Some(p) => "// package: "@ + p + "\n"@,
        None => Seq::<char>::empty(),
    }));
    let ghost is = file@.interfaces;
    let n = file.interfaces.len();
    let mut k: usize = 0;
    while k < n
        invariant
            0 <= k <= n,
            n == file.interfaces@.len(),
            is == file.interfaces@.map_values(|i: AidlInterface| i@),
            out@ == head + interfaces_text(is, k as int),
        decreases n - k,
    {
        push_interface(&mut out, &file.interfaces[k]);
        assert(is[k as int] == file.interfaces@[k as int]@);
        assert(out@ =~= head + interfaces_text(is, k + 1));
        k = k + 1;
    }
    string_from_chars(out.as_slice())
}

/// The Rust source for a HIDL file, which is read as AIDL is.
pub fn generate_hidl_rust(file: &AidlFile) -> (r: String)
    ensures
        r@ == spec_generate(file@),
{
    generate_rust(file)
}

/// Each AIDL primitive maps to its Rust counterpart: `boolean` to `bool`, `byte` to `i8`,
/// `int` to `i32`, `long` to `i64`, `float` to `f32`, `double` to `f64`, `void` to `()`,
/// `String` to `String`.
pub proof fn lemma_aidl_primitive_types()
    ensures
        spec_rust_type("boolean"@) == "bool"@,
        spec_rust_type("byte"@) == "i8"@,
        spec_rust_type("int"@) == "i32"@,
        spec_rust_type("long"@) == "i64"@,
        spec_rust_type("float"@) == "f32"@,
        spec_rust_type("double"@) == "f64"@,
        spec_rust_type("void"@) == "()"@,
        spec_rust_type("String"@) == "String"@,
{
    reveal_strlit("[]");
    reveal_strlit("boolean");
    reveal_strlit("byte");
    reveal_strlit("int");
    reveal_strlit("long");
    reveal_strlit("float");
    reveal_strlit("double");
    reveal_strlit("void");
    reveal_strlit("String");
    assert(!has_suffix("boolean"@, "[]"@)) by { assert("boolean"@[6] != "[]"@[1]); }
    assert(!has_suffix("byte"@, "[]"@)) by { assert("byte"@[3] != "[]"@[1]); }
    assert(!has_suffix("int"@, "[]"@)) by { assert("int"@[2] != "[]"@[1]); }
    assert(!has_suffix("long"@, "[]"@)) by { assert("long"@[3] != "[]"@[1]); }
    assert(!has_suffix("float"@, "[]"@)) by { assert("float"@[4] != "[]"@[1]); }
    assert(!has_suffix("double"@, "[]"@)) by { assert("double"@[5] != "[]"@[1]); }
    assert(!has_suffix("void"@, "[]"@)) by { assert("void"@[3] != "[]"@[1]); }
    assert(!has_suffix("String"@, "[]"@)) by { assert("String"@[5] != "[]"@[1]); }
    assert("byte"@ != "void"@) by { assert("byte"@[0] != "void"@[0]); }
    assert("long"@ != "void"@) by { assert("long"@[0] != "void"@[0]); }
    assert("long"@ != "byte"@) by { assert("long"@[0] != "byte"@[0]); }
    assert("float"@ != "void"@ && "float"@ != "byte"@ && "float"@ != "int"@ && "float"@ != "long"@);
    assert("double"@ != "float"@ && "double"@ != "void"@);
    assert("boolean"@ != "double"@ && "boolean"@ != "float"@);
    assert("String"@ != "double"@) by { assert("String"@[0] != "double"@[0]); }
    assert("String"@ != "boolean"@ && "String"@ != "float"@ && "String"@ != "void"@);
}

/// An array type maps to a `Vec` of what its element type maps to.
pub proof fn lemma_aidl_array_type(ty: Seq<char>)
    ensures
        spec_rust_type(ty + "[]"@) == "Vec<"@ + spec_rust_type(ty) + ">"@,
{
    reveal_strlit("[]");
    let t = ty + "[]"@;
    assert(has_suffix(t, "[]"@)) by {
        assert(t.subrange(t.len() - 2, t.len() as int) =~= "[]"@);
    }
    assert(t.subrange(0, t.len() - 2) =~= ty);
}

/// A parameter reads as `in`, `out` or `inout` when its first word is that direction, and as
/// an input when it has no direction word; the next two words are its type and its name.
pub proof fn lemma_parameter_directions(p: Seq<char>, ty: Seq<char>, name: Seq<char>)
    ensures
        words(p) == seq!["in"@, ty, name] ==> spec_parameter(p)
            == Some(ParamModel { direction: ParameterDirection::In, ty, name }),
        words(p) == seq!["out"@, ty, name] ==> spec_parameter(p)
            == Some(ParamModel { direction: ParameterDirection::Out, ty, name }),
        words(p) == seq!["inout"@, ty, name] ==> spec_parameter(p)
            == Some(ParamModel { direction: ParameterDirection::InOut, ty, name }),
        words(p) == seq![ty, name] && ty != "in"@ && ty != "out"@ && ty != "inout"@ ==> spec_parameter(p)
            == Some(ParamModel { direction: ParameterDirection::In, ty, name }),
        words(p).len() < 2 ==> spec_parameter(p) is None,
{
    reveal_strlit("in");
    reveal_strlit("out");
    reveal_strlit("inout");
    assert("out"@ != "in"@) by { assert("out"@[0] != "in"@[0]); }
    assert("inout"@ != "in"@) by { assert("inout"@.len() != "in"@.len()); }
    assert("inout"@ != "out"@) by { assert("inout"@.len() != "out"@.len()); }
}

/// The text generated for a file with one interface holding one method: the trait with the
/// method taking `&mut self` (and then the parameter, by value when it is an input, by
/// `&mut` otherwise) and returning the Rust type of its return type, then the stub struct.
/// A package, when there is one, comes first as a comment line.
pub proof fn lemma_generated_single_method(package: Option<Seq<char>>, iname: Seq<char>, m: MethodModel)
    requires
        m.parameters.len() <= 1,
    ensures
        ({
            let params = if m.parameters.len() == 0 {
                Seq::empty()
            } else {
                let p = m.parameters[0];
                ", "@ + p.name + ": "@ + (if p.direction is In { spec_rust_type(p.ty) } else { "&mut "@ + spec_rust_type(p.ty) })
            };
            let body = "pub trait "@ + iname + " {\n"@ + "    fn "@ + m.name + "(&mut self"@ + params + ") -> "@
                + spec_rust_type(m.return_type) + ";\n"@ + "}\n\n"@ + "pub struct "@ + iname
                + "Stub<T> { pub implementation: T }\n"@;
            spec_generate(FileModel { package, interfaces: seq![InterfaceModel { name: iname, methods: seq![m] }] })
                == match package {
                    Some(pk) => "// package: "@ + pk + "\n"@ + body,
                    None => body,
                }
        }),
{
    reveal_strlit(", ");
    let ms = seq![m];
    let args = args_text(m.parameters, m.parameters.len() as int);
    let params = if m.parameters.len() == 0 {
        Seq::empty()
    } else {
        let p = m.parameters[0];
        ", "@ + p.name + ": "@ + (if p.direction is In { spec_rust_type(p.ty) } else { "&mut "@ + spec_rust_type(p.ty) })
    };
    if m.parameters.len() == 1 {
        let p = m.parameters[0];
        assert(args == arg_text(p));
        reveal_strlit(": ");
        assert(args.len() >= 2);
        assert((if args.len() == 0 { ""@ } else { ", "@ }) + args =~= params);
    } else {
        reveal_strlit("");
        assert(args == Seq::<char>::empty());
        assert((if args.len() == 0 { ""@ } else { ", "@ }) + args =~= params);
    }
    let mt = "    fn "@ + m.name + "(&mut self"@ + params + ") -> "@ + spec_rust_type(m.return_type) + ";\n"@;
    assert(method_text(m) =~= mt);
    assert(ms[0] == m);
    assert(methods_text(ms, 0) =~= Seq::<char>::empty());
    assert(methods_text(ms, 1) =~= mt);
    let is = seq![InterfaceModel { name: iname, methods: ms }];
    assert(interfaces_text(is, 0) =~= Seq::<char>::empty());
    assert(interfaces_text(is, 1) =~= interface_text(is[0]));
    let body = "pub trait "@ + iname + " {\n"@ + "    fn "@ + m.name + "(&mut self"@ + params + ") -> "@
        + spec_rust_type(m.return_type) + ";\n"@ + "}\n\n"@ + "pub struct "@ + iname
        + "Stub<T> { pub implementation: T }\n"@;
    assert(interface_text(is[0]) =~= body);
}

/// Any other type, neither an array nor one of the primitives, becomes `ParcelValue`.
pub proof fn lemma_aidl_other_types(ty: Seq<char>)
    requires
        !has_suffix(ty, "[]"@),
        ty != "void"@ && ty != "byte"@ && ty != "int"@ && ty != "long"@ && ty != "float"@
            && ty != "double"@ && ty != "boolean"@ && ty != "String"@,
    ensures
        spec_rust_type(ty) == "ParcelValue"@,
{
}

/// In a method line of an open interface, the last word before `(` is the method's name and
/// the one before it its return type; the method is appended to the interface, which keeps
/// its name and earlier methods.
pub proof fn lemma_method_line_names(line: Seq<char>, st: WalkState)
    requires
        st.current is Some,
        first_occurrence(line, "("@, 0) is Some,
        method_step(line, st) is Next,
    ensures
        ({
            let open = first_occurrence(line, "("@, 0)->0;
            let head = words(line.subrange(0, open));
            let c = st.current->0;
            let s2 = method_step(line, st)->Next_0;
            &&& head.len() >= 2
            &&& s2.current is Some
            &&& s2.current->0.name == c.name
            &&& s2.current->0.methods.len() == c.methods.len() + 1
            &&& s2.current->0.methods.subrange(0, c.methods.len() as int) == c.methods
            &&& s2.current->0.methods.last().name == head.last()
            &&& s2.current->0.methods.last().return_type == head[head.len() - 2]
            &&& s2.package == st.package
            &&& s2.interfaces == st.interfaces
        }),
{
    let s2 = method_step(line, st)->Next_0;
    let c = st.current->0;
    assert(s2.current->0.methods.subrange(0, c.methods.len() as int) =~= c.methods);
}

} // verus!
