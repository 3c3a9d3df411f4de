//! The assembler: definition extraction, macro expansion, constant
//! substitution, and code generation.
//!
//! Each pass is specified by a mathematical function over token sequences
//! (`extract_from`, `expand_tokens`, `subst_tokens`, `codegen_from`), and
//! each executable pass is proved to compute exactly that function.

use vstd::prelude::*;

use crate::errors::{AsmError, AsmErrorV};
use crate::numeric::{parse_literal, parse_val};
use crate::token::{
    is_digit, is_literal_text, lit_run, str_eq, Token, TokenType, TokenV,
};
use crate::vm::Opcode;

verus! {

broadcast use crate::token::lemma_vec_deep_view_index;

/// The mathematical value of a macro: its name and its verbatim token body.
#[verifier::ext_equal]
pub struct MacroV {
    pub name: Seq<char>,
    pub body: Seq<TokenV>,
}

/// A named, verbatim token template, expanded by textual substitution at
/// each invocation site.
#[derive(Clone, Debug)]
pub struct Macro {
    pub name: String,
    pub body: Vec<Token>,
}

impl View for Macro {
    type V = MacroV;

    open spec fn view(&self) -> MacroV {
        MacroV { name: self.name@, body: self.body.deep_view() }
    }
}

impl DeepView for Macro {
    type V = MacroV;

    open spec fn deep_view(&self) -> MacroV {
        self@
    }
}

/// The mathematical value of a constant binding.
#[verifier::ext_equal]
pub struct ConstantV {
    pub name: Seq<char>,
    pub value: Seq<char>,
}

/// A compile-time numeric binding: a name and the literal text of its
/// value, substituted verbatim for each free occurrence of the name.
#[derive(Clone, Debug)]
pub struct Constant {
    pub name: String,
    pub value: String,
}

impl View for Constant {
    type V = ConstantV;

    open spec fn view(&self) -> ConstantV {
        ConstantV { name: self.name@, value: self.value@ }
    }
}

impl DeepView for Constant {
    type V = ConstantV;

    open spec fn deep_view(&self) -> ConstantV {
        self@
    }
}

/// The first macro named `name`, scanning in definition order.
pub open spec fn lookup_macro(ms: Seq<MacroV>, name: Seq<char>) -> Option<MacroV>
    decreases ms.len(),
{
    if ms.len() == 0 {
        Option::None
    } else if ms[0].name == name {
        Option::Some(ms[0])
    } else {
        lookup_macro(ms.drop_first(), name)
    }
}

/// The first constant named `name`, scanning in definition order.
pub open spec fn lookup_constant(cs: Seq<ConstantV>, name: Seq<char>) -> Option<ConstantV>
    decreases cs.len(),
{
    if cs.len() == 0 {
        Option::None
    } else if cs[0].name == name {
        Option::Some(cs[0])
    } else {
        lookup_constant(cs.drop_first(), name)
    }
}

/// The position of the first `CloseBrace` at or after `k`, or the length.
pub open spec fn close_brace_at(toks: Seq<TokenV>, k: int) -> int
    decreases toks.len() - k,
{
    if k < 0 || k >= toks.len() {
        toks.len() as int
    } else if toks[k].ttype == TokenType::CloseBrace {
        k
    } else {
        close_brace_at(toks, k + 1)
    }
}

proof fn lemma_close_brace_bounds(toks: Seq<TokenV>, k: int)
    requires
        0 <= k <= toks.len(),
    ensures
        k <= close_brace_at(toks, k) <= toks.len(),
    decreases toks.len() - k,
{
    if k < toks.len() && toks[k].ttype != TokenType::CloseBrace {
        lemma_close_brace_bounds(toks, k + 1);
    }
}

/// The macro production `macro IDENT { token* }` at position `i`: the
/// parsed macro and the position after it, or `None` when the production
/// does not match there. The body is every token strictly between the
/// braces, with no nesting awareness.
pub open spec fn macro_production(toks: Seq<TokenV>, i: int) -> Option<(MacroV, int)> {
    if 0 <= i && i + 3 <= toks.len() && toks[i].ttype == TokenType::Macro && toks[i
        + 1].ttype == TokenType::Identifier && toks[i + 2].ttype == TokenType::OpenBrace {
        let e = close_brace_at(toks, i + 3);
        if e < toks.len() {
            Option::Some((MacroV { name: toks[i + 1].slice, body: toks.subrange(i + 3, e) }, e + 1))
        } else {
            Option::None
        }
    } else {
        Option::None
    }
}

/// The constant production `const IDENT = LITERAL` at position `i`.
pub open spec fn const_production(toks: Seq<TokenV>, i: int) -> Option<(ConstantV, int)> {
    if 0 <= i && i + 4 <= toks.len() && toks[i].ttype == TokenType::Const && toks[i
        + 1].ttype == TokenType::Identifier && toks[i + 2].ttype == TokenType::Assign && toks[i
        + 3].ttype == TokenType::Literal {
        Option::Some((ConstantV { name: toks[i + 1].slice, value: toks[i + 3].slice }, i + 4))
    } else {
        Option::None
    }
}

/// Definition extraction from position `i` on, with the definitions
/// gathered so far: repeatedly parse a macro or constant definition,
/// rejecting duplicate names, until the input ends; any residual token
/// that starts neither production is a structural failure.
///
/// The clamp on the next position only guards well-foundedness; a
/// matching production always ends past `i` and inside the input.
pub open spec fn extract_from(
    toks: Seq<TokenV>,
    i: int,
    ms: Seq<MacroV>,
    cs: Seq<ConstantV>,
) -> Result<(Seq<MacroV>, Seq<ConstantV>), AsmErrorV>
    decreases toks.len() - i,
{
    if i < 0 || i >= toks.len() {
        Result::Ok((ms, cs))
    } else {
        match macro_production(toks, i) {
            Option::Some(pm) => {
                let j = if i < pm.1 <= toks.len() {
                    pm.1
                } else {
                    i + 1
                };
                if lookup_macro(ms, pm.0.name) is Some {
                    Result::Err(AsmErrorV::DuplicateDefinition { name: pm.0.name })
                } else {
                    extract_from(toks, j, ms.push(pm.0), cs)
                }
            },
            Option::None => match const_production(toks, i) {
                Option::Some(pc) => {
                    let j = if i < pc.1 <= toks.len() {
                        pc.1
                    } else {
                        i + 1
                    };
                    if lookup_constant(cs, pc.0.name) is Some {
                        Result::Err(AsmErrorV::DuplicateDefinition { name: pc.0.name })
                    } else {
                        extract_from(toks, j, ms, cs.push(pc.0))
                    }
                },
                Option::None => Result::Err(
                    AsmErrorV::UnexpectedToken { kind: toks[i].ttype, pos: i },
                ),
            },
        }
    }
}

/// What one token contributes to a single expansion pass: the body of the
/// macro it invokes, or the token itself.
pub open spec fn expansion_of(t: TokenV, ms: Seq<MacroV>) -> Seq<TokenV> {
    if t.ttype == TokenType::Identifier {
        match lookup_macro(ms, t.slice) {
            Option::Some(m) => m.body,
            Option::None => seq![t],
        }
    } else {
        seq![t]
    }
}

/// One single-level expansion pass: each invocation of a known macro is
/// replaced, in place, by that macro's body; every other token is kept.
/// Inserted tokens are not re-scanned within the pass.
pub open spec fn expand_tokens(body: Seq<TokenV>, ms: Seq<MacroV>) -> Seq<TokenV>
    decreases body.len(),
{
    if body.len() == 0 {
        Seq::empty()
    } else {
        expansion_of(body[0], ms) + expand_tokens(body.drop_first(), ms)
    }
}

/// Whether `body` still holds an invocation of a known macro.
pub open spec fn has_invocation(body: Seq<TokenV>, ms: Seq<MacroV>) -> bool {
    exists|k: int|
        0 <= k < body.len() && #[trigger] body[k].ttype == TokenType::Identifier && lookup_macro(
            ms,
            body[k].slice,
        ) is Some
}

/// Iterated single-level expansion with a pass budget: the fully expanded
/// stream, or `None` when invocations remain after the budget runs out.
/// With one pass per macro, a remaining invocation proves a cycle.
pub open spec fn expand_full(body: Seq<TokenV>, ms: Seq<MacroV>, fuel: nat) -> Option<Seq<TokenV>>
    decreases fuel,
{
    if !has_invocation(body, ms) {
        Option::Some(body)
    } else if fuel == 0 {
        Option::None
    } else {
        expand_full(expand_tokens(body, ms), ms, (fuel - 1) as nat)
    }
}

/// Constant substitution: each free identifier bound to a constant is
/// replaced by a literal token carrying the constant's value text; the
/// leftmost identifier bound to nothing is the error.
pub open spec fn subst_tokens(body: Seq<TokenV>, cs: Seq<ConstantV>) -> Result<
    Seq<TokenV>,
    Seq<char>,
>
    decreases body.len(),
{
    if body.len() == 0 {
        Result::Ok(Seq::empty())
    } else {
        let t = body[0];
        if t.ttype == TokenType::Identifier {
            match lookup_constant(cs, t.slice) {
                Option::Some(c) => match subst_tokens(body.drop_first(), cs) {
                    Result::Ok(rest) => Result::Ok(
                        seq![TokenV { ttype: TokenType::Literal, slice: c.value }] + rest,
                    ),
                    Result::Err(e) => Result::Err(e),
                },
                Option::None => Result::Err(t.slice),
            }
        } else {
            match subst_tokens(body.drop_first(), cs) {
                Result::Ok(rest) => Result::Ok(seq![t] + rest),
                Result::Err(e) => Result::Err(e),
            }
        }
    }
}

/// The opcode of a mnemonic that takes no operand, `None` for every other
/// kind. The built-in constant mnemonics compile to `Get` of their
/// well-known keys: 1 for `pi`, 2 for `tau`, 3 for `e`.
pub open spec fn fixed_opcode(t: TokenType) -> Option<Opcode> {
    match t {
        TokenType::Pop => Option::Some(Opcode::Pop),
        TokenType::Add => Option::Some(Opcode::Add),
        TokenType::AddSymb => Option::Some(Opcode::Add),
        TokenType::Sub => Option::Some(Opcode::Sub),
        TokenType::SubSymb => Option::Some(Opcode::Sub),
        TokenType::Mul => Option::Some(Opcode::Mul),
        TokenType::MulSymb => Option::Some(Opcode::Mul),
        TokenType::Dup => Option::Some(Opcode::Dup),
        TokenType::Sqrt => Option::Some(Opcode::Sqrt),
        TokenType::Pc => Option::Some(Opcode::Pc),
        TokenType::Print => Option::Some(Opcode::Print),
        TokenType::Halt => Option::Some(Opcode::Halt),
        TokenType::Pi => Option::Some(Opcode::Get(1)),
        TokenType::Tau => Option::Some(Opcode::Get(2)),
        TokenType::E => Option::Some(Opcode::Get(3)),
        _ => Option::None,
    }
}

/// Whether the kind is a mnemonic taking an index operand: `jump`, `set`,
/// `get`, and the symbolic aliases `$` (get) and `=` (set).
pub open spec fn takes_index(t: TokenType) -> bool {
    t == TokenType::Jump || t == TokenType::Store || t == TokenType::Get
        || t == TokenType::GetSymb || t == TokenType::Assign
}

/// The opcode of an index-taking mnemonic applied to its operand.
pub open spec fn index_opcode(t: TokenType, k: usize) -> Opcode {
    match t {
        TokenType::Jump => Opcode::Jump(k),
        TokenType::Store => Opcode::Store(k),
        TokenType::Get => Opcode::Get(k),
        TokenType::GetSymb => Opcode::Get(k),
        _ => Opcode::Store(k),
    }
}

/// Whether the kind is a mnemonic: a token that compiles to exactly one
/// opcode.
pub open spec fn is_mnemonic(t: TokenType) -> bool {
    t == TokenType::Push || takes_index(t) || fixed_opcode(t) is Some
}

/// The digits of an index operand, past its optional leading `+` sign.
pub open spec fn index_digits(s: Seq<char>) -> Seq<char> {
    if s.len() > 0 && s[0] == '+' {
        s.drop_first()
    } else {
        s
    }
}

/// Whether `s` has the shape of an index operand: an optional `+` sign
/// and one or more digits.
pub open spec fn is_index_shape(s: Seq<char>) -> bool {
    index_digits(s).len() > 0 && (forall|k: int|
        0 <= k < index_digits(s).len() ==> is_digit(#[trigger] index_digits(s)[k]))
}

/// The number that a digit string denotes in base ten.
pub open spec fn digits_value(s: Seq<char>) -> int
    decreases s.len(),
{
    if s.len() == 0 {
        0
    } else {
        digits_value(s.drop_last()) * 10 + (s.last() as u32 - 48)
    }
}

/// The index that the operand text `s` denotes: `None` when the shape is
/// wrong or the value does not fit the machine's index type.
pub open spec fn index_spec(s: Seq<char>) -> Option<usize> {
    if is_index_shape(s) && digits_value(index_digits(s)) <= usize::MAX {
        Option::Some(digits_value(index_digits(s)) as usize)
    } else {
        Option::None
    }
}

proof fn lemma_digits_value_nonneg(s: Seq<char>)
    requires
        forall|k: int| 0 <= k < s.len() ==> is_digit(#[trigger] s[k]),
    ensures
        digits_value(s) >= 0,
    decreases s.len(),
{
    if s.len() > 0 {
        lemma_digits_value_nonneg(s.drop_last());
    }
}

proof fn lemma_digits_value_mono(s: Seq<char>, m: int)
    requires
        0 <= m <= s.len(),
        forall|k: int| 0 <= k < s.len() ==> is_digit(#[trigger] s[k]),
    ensures
        digits_value(s.take(m)) <= digits_value(s),
    decreases s.len() - m,
{
    if m == s.len() {
        assert(s.take(m) =~= s);
    } else {
        assert(forall|k: int| 0 <= k < s.take(m).len() ==> is_digit(#[trigger] s.take(m)[k]));
        lemma_digits_value_nonneg(s.take(m));
        assert(s.take(m + 1).drop_last() =~= s.take(m));
        lemma_digits_value_mono(s, m + 1);
    }
}

/// Parse an index operand, as `index_spec`.
fn parse_index(s: &str) -> (r: Option<usize>)
    ensures
        r == index_spec(s@),
{
    let n = s.unicode_len();
    if n == 0 {
        return None;
    }
    let start: usize = if s.get_char(0) == '+' {
        1
    } else {
        0
    };
    proof {
        assert(index_digits(s@) =~= s@.subrange(start as int, n as int));
    }
    if start >= n {
        return None;
    }
    let ghost d = index_digits(s@);
    let mut acc: usize = 0;
    let mut i: usize = start;
    while i < n
        invariant
            start <= i <= n,
            n == s@.len(),
            start == 1 ==> s@.len() > 0 && s@[0] == '+',
            start == 0 ==> s@.len() == 0 || s@[0] != '+',
            d == index_digits(s@),
            d =~= s@.subrange(start as int, n as int),
            forall|k: int| start <= k < i ==> is_digit(#[trigger] s@[k]),
            acc as int == digits_value(d.take(i - start)),
        decreases n - i,
    {
        let c = s.get_char(i);
        if !crate::token::char_is_digit(c) {
            proof {
                assert(d[i - start] == s@[i as int]);
                assert(!is_index_shape(s@));
            }
            return None;
        }
        let dv: usize = ((c as u32) as usize) - 48;
        proof {
            assert(d.take(i - start + 1).drop_last() =~= d.take(i - start));
            assert(d.take(i - start + 1).last() == s@[i as int]);
        }
        let acc10 = match acc.checked_mul(10) {
            Some(x) => x,
            None => {
                proof {
                    lemma_overflow_means_none(s@, d, i as int - start as int, acc as int, dv as int);
                }
                return None;
            },
        };
        acc = match acc10.checked_add(dv) {
            Some(y) => y,
            None => {
                proof {
                    lemma_overflow_means_none(s@, d, i as int - start as int, acc as int, dv as int);
                }
                return None;
            },
        };
        i = i + 1;
    }
    proof {
        assert(d.take(n - start) =~= d);
        assert(forall|k: int| 0 <= k < d.len() ==> is_digit(#[trigger] d[k]));
        assert(is_index_shape(s@));
    }
    Some(acc)
}

proof fn lemma_overflow_means_none(s: Seq<char>, d: Seq<char>, k: int, acc: int, dv: int)
    requires
        d == index_digits(s),
        0 <= k < d.len(),
        acc == digits_value(d.take(k)),
        dv == d[k] as u32 - 48,
        acc * 10 + dv > usize::MAX,
        acc >= 0,
        dv >= 0,
    ensures
        index_spec(s) == Option::<usize>::None,
{
    if is_index_shape(s) {
        assert(d.take(k + 1).drop_last() =~= d.take(k));
        assert(d.take(k + 1).last() == d[k]);
        assert(digits_value(d.take(k + 1)) == acc * 10 + dv);
        lemma_digits_value_mono(d, k + 1);
    }
}

/// Whether `s` has the shape of a numeric literal, as `is_literal_text`.
fn check_literal(s: &str) -> (b: bool)
    ensures
        b == is_literal_text(s@),
{
    let n = s.unicode_len();
    if n == 0 {
        return false;
    }
    let c = s.get_char(0);
    let start: usize = if c == '+' || c == '-' {
        1
    } else {
        0
    };
    if start >= n {
        return false;
    }
    let e = lit_run(s, start);
    e == n
}

/// `Ok` exactly on the result sequences, `Err` exactly on the error views.
pub open spec fn ops_result_view(r: Result<Vec<Opcode>, AsmError>) -> Result<
    Seq<Opcode>,
    AsmErrorV,
> {
    match r {
        Result::Ok(v) => Result::Ok(v@),
        Result::Err(e) => Result::Err(e@),
    }
}

/// Prepend one opcode to the result of generating the rest.
pub open spec fn cons_op(op: Opcode, rest: Result<Seq<Opcode>, AsmErrorV>) -> Result<
    Seq<Opcode>,
    AsmErrorV,
> {
    match rest {
        Result::Ok(r) => Result::Ok(seq![op] + r),
        Result::Err(e) => Result::Err(e),
    }
}

/// Code generation from position `i` on: one opcode per mnemonic, with
/// `push`, `jump`, `set`, `get`, `$` and `=` consuming the immediately
/// following literal as their operand; literals not consumed as operands
/// and comments are skipped; every other kind is a fatal unexpected token.
pub open spec fn codegen_from(toks: Seq<TokenV>, i: int) -> Result<Seq<Opcode>, AsmErrorV>
    decreases toks.len() - i,
{
    if i < 0 || i >= toks.len() {
        Result::Ok(Seq::empty())
    } else {
        let tt = toks[i].ttype;
        match fixed_opcode(tt) {
            Option::Some(op) => cons_op(op, codegen_from(toks, i + 1)),
            Option::None => if tt == TokenType::Push {
                if i + 1 < toks.len() && toks[i + 1].ttype == TokenType::Literal && is_literal_text(
                    toks[i + 1].slice,
                ) {
                    cons_op(Opcode::Push(parse_val(toks[i + 1].slice)), codegen_from(toks, i + 2))
                } else {
                    Result::Err(AsmErrorV::MalformedOperand { pos: i })
                }
            } else if takes_index(tt) {
                if i + 1 < toks.len() && toks[i + 1].ttype == TokenType::Literal {
                    match index_spec(toks[i + 1].slice) {
                        Option::Some(k) => cons_op(index_opcode(tt, k), codegen_from(toks, i + 2)),
                        Option::None => Result::Err(AsmErrorV::MalformedOperand { pos: i }),
                    }
                } else {
                    Result::Err(AsmErrorV::MalformedOperand { pos: i })
                }
            } else if tt == TokenType::Literal || tt == TokenType::Comment {
                codegen_from(toks, i + 1)
            } else {
                Result::Err(AsmErrorV::UnexpectedToken { kind: tt, pos: i })
            },
        }
    }
}

/// The whole assembly pipeline over a token sequence: extract the macro
/// and constant definitions, take the body of the macro named `main`,
/// expand invocations, substitute constants, and generate code.
pub open spec fn assemble_spec(toks: Seq<TokenV>) -> Result<Seq<Opcode>, AsmErrorV> {
    match extract_from(toks, 0, Seq::empty(), Seq::empty()) {
        Result::Err(e) => Result::Err(e),
        Result::Ok(defs) => match lookup_macro(defs.0, "main"@) {
            Option::None => Result::Err(AsmErrorV::MissingEntryPoint),
            Option::Some(m) => match expand_full(m.body, defs.0, defs.0.len()) {
                Option::None => Result::Err(AsmErrorV::CyclicMacroExpansion),
                Option::Some(body) => match subst_tokens(body, defs.1) {
                    Result::Err(name) => Result::Err(AsmErrorV::UnknownIdentifier { name }),
                    Result::Ok(stream) => codegen_from(stream, 0),
                },
            },
        },
    }
}

/// The whole pipeline over source text: lexing, then assembly.
pub open spec fn compile_spec(src: Seq<char>) -> Result<Seq<Opcode>, AsmErrorV> {
    assemble_spec(crate::token::lex_from(src, 0))
}

/// The fully expanded, constant-substituted token stream that the
/// pipeline hands to code generation, when every pass before code
/// generation succeeds.
pub open spec fn expanded_stream(toks: Seq<TokenV>) -> Option<Seq<TokenV>> {
    match extract_from(toks, 0, Seq::empty(), Seq::empty()) {
        Result::Err(_) => Option::None,
        Result::Ok(defs) => match lookup_macro(defs.0, "main"@) {
            Option::None => Option::None,
            Option::Some(m) => match expand_full(m.body, defs.0, defs.0.len()) {
                Option::None => Option::None,
                Option::Some(body) => match subst_tokens(body, defs.1) {
                    Result::Err(_) => Option::None,
                    Result::Ok(stream) => Option::Some(stream),
                },
            },
        },
    }
}

fn copy_token(t: &Token) -> (r: Token)
    ensures
        r@ == t@,
{
    Token { ttype: t.ttype, slice: t.slice.clone() }
}

fn clone_tokens(ts: &Vec<Token>) -> (r: Vec<Token>)
    ensures
        r.deep_view() == ts.deep_view(),
{
    let mut out: Vec<Token> = Vec::new();
    let mut i: usize = 0;
    while i < ts.len()
        invariant
            0 <= i <= ts.len(),
            out@.len() == i,
            out.deep_view() =~= ts.deep_view().take(i as int),
        decreases ts.len() - i,
    {
        let ghost prev = out@;
        let ghost pre = out.deep_view();
        out.push(copy_token(&ts[i]));
        proof {
            assert(out.deep_view()[i as int] == out@[i as int].deep_view());
            assert forall|k: int| 0 <= k < i implies out.deep_view()[k] == pre[k] by {
                assert(out@[k] == prev[k]);
                assert(pre[k] == prev[k].deep_view());
            }
            assert(out.deep_view() =~= ts.deep_view().take(i + 1));
        }
        i = i + 1;
    }
    proof {
        assert(ts.deep_view().take(ts.len() as int) =~= ts.deep_view());
    }
    out
}

fn clone_macro(m: &Macro) -> (r: Macro)
    ensures
        r@ == m@,
{
    Macro { name: m.name.clone(), body: clone_tokens(&m.body) }
}

/// The first macro named `name`, as `lookup_macro`.
fn find_macro(ms: &Vec<Macro>, name: &str) -> (r: Option<Macro>)
    ensures
        match (r, lookup_macro(ms.deep_view(), name@)) {
            (Option::Some(m), Option::Some(mv)) => m@ == mv,
            (Option::None, Option::None) => true,
            _ => false,
        },
{
    let mut i: usize = 0;
    proof {
        assert(ms.deep_view().skip(0) =~= ms.deep_view());
    }
    while i < ms.len()
        invariant
            0 <= i <= ms.len(),
            lookup_macro(ms.deep_view(), name@) == lookup_macro(
                ms.deep_view().skip(i as int),
                name@,
            ),
        decreases ms.len() - i,
    {
        proof {
            assert(ms.deep_view().skip(i as int)[0] == ms.deep_view()[i as int]);
            assert(ms.deep_view().skip(i as int).drop_first() =~= ms.deep_view().skip(i + 1));
        }
        if str_eq(ms[i].name.as_str(), name) {
            return Some(clone_macro(&ms[i]));
        }
        i = i + 1;
    }
    None
}

/// The first constant named `name`, as `lookup_constant`.
fn find_constant(cs: &Vec<Constant>, name: &str) -> (r: Option<Constant>)
    ensures
        match (r, lookup_constant(cs.deep_view(), name@)) {
            (Option::Some(c), Option::Some(cv)) => c@ == cv,
            (Option::None, Option::None) => true,
            _ => false,
        },
{
    let mut i: usize = 0;
    proof {
        assert(cs.deep_view().skip(0) =~= cs.deep_view());
    }
    while i < cs.len()
        invariant
            0 <= i <= cs.len(),
            lookup_constant(cs.deep_view(), name@) == lookup_constant(
                cs.deep_view().skip(i as int),
                name@,
            ),
        decreases cs.len() - i,
    {
        proof {
            assert(cs.deep_view().skip(i as int)[0] == cs.deep_view()[i as int]);
            assert(cs.deep_view().skip(i as int).drop_first() =~= cs.deep_view().skip(i + 1));
        }
        if str_eq(cs[i].name.as_str(), name) {
            return Some(Constant { name: cs[i].name.clone(), value: cs[i].value.clone() });
        }
        i = i + 1;
    }
    None
}

/// The parser over a token sequence: the tokens and an explicit cursor.
/// A production attempt either consumes the whole production or leaves
/// the cursor exactly where it started.
#[derive(Debug)]
pub struct Assembler {
    /// Tokens to be parsed.
    pub tokens: Vec<Token>,
    /// The position of the next token to examine.
    pub cursor: usize,
}

impl Assembler {
    /// Build a parser over `tokens` with the cursor at the start.
    pub fn new(tokens: Vec<Token>) -> (a: Assembler)
        ensures
            a.tokens == tokens,
            a.cursor == 0,
    {
        Assembler { tokens, cursor: 0 }
    }

    /// Advance over one expected token kind: consume one position when
    /// `actual` is `expected`, and change nothing otherwise.
    pub fn match_token(&mut self, actual: TokenType, expected: TokenType) -> (r: Result<(), ()>)
        requires
            old(self).cursor < usize::MAX,
        ensures
            final(self).tokens == old(self).tokens,
            actual == expected ==> r is Ok && final(self).cursor == old(self).cursor + 1,
            actual != expected ==> r is Err && final(self).cursor == old(self).cursor,
    {
        if actual == expected {
            self.cursor = self.cursor + 1;
            Ok(())
        } else {
            Err(())
        }
    }

    /// Attempt the macro production at the cursor, as `macro_production`:
    /// consume it entirely on success, and roll the cursor back on
    /// failure.
    pub fn parse_macro(&mut self) -> (r: Result<Macro, ()>)
        requires
            old(self).cursor <= old(self).tokens@.len(),
        ensures
            final(self).tokens == old(self).tokens,
            final(self).cursor <= final(self).tokens@.len(),
            match (r, macro_production(old(self).tokens.deep_view(), old(self).cursor as int)) {
                (Result::Ok(m), Option::Some(pm)) => m@ == pm.0 && final(self).cursor == pm.1
                    && old(self).cursor < final(self).cursor,
                (Result::Err(_), Option::None) => final(self).cursor == old(self).cursor,
                _ => false,
            },
    {
        let ghost toks = self.tokens.deep_view();
        let n = self.tokens.len();
        if n < 3 || self.cursor > n - 3 {
            return Err(());
        }
        if self.tokens[self.cursor].ttype != TokenType::Macro {
            return Err(());
        }
        if self.tokens[self.cursor + 1].ttype != TokenType::Identifier {
            return Err(());
        }
        if self.tokens[self.cursor + 2].ttype != TokenType::OpenBrace {
            return Err(());
        }
        let name = self.tokens[self.cursor + 1].slice.clone();
        let mut body: Vec<Token> = Vec::new();
        let mut e: usize = self.cursor + 3;
        while e < n && self.tokens[e].ttype != TokenType::CloseBrace
            invariant
                self.cursor + 3 <= e <= n,
                n == self.tokens.len(),
                toks == self.tokens.deep_view(),
                body@.len() == e - (self.cursor + 3),
                body.deep_view() =~= toks.subrange(self.cursor + 3, e as int),
                close_brace_at(toks, self.cursor + 3) == close_brace_at(toks, e as int),
            decreases n - e,
        {
            let ghost prev = body@;
            let ghost pre = body.deep_view();
            body.push(copy_token(&self.tokens[e]));
            proof {
                assert(body.deep_view()[pre.len() as int] == body@[pre.len() as int].deep_view());
                assert forall|k: int| 0 <= k < pre.len() implies body.deep_view()[k] == pre[k] by {
                    assert(body@[k] == prev[k]);
                    assert(pre[k] == prev[k].deep_view());
                }
                assert(self.tokens.deep_view()[e as int] == self.tokens@[e as int].deep_view());
                assert(body.deep_view() =~= toks.subrange(self.cursor + 3, e + 1));
            }
            e = e + 1;
        }
        if e == n {
            proof {
                lemma_close_brace_bounds(toks, e as int);
            }
            return Err(());
        }
        self.cursor = e + 1;
        Ok(Macro { name, body })
    }

    /// Attempt the constant production at the cursor, as
    /// `const_production`: consume it entirely on success, and leave the
    /// cursor in place on failure.
    pub fn parse_constant(&mut self) -> (r: Result<Constant, ()>)
        requires
            old(self).cursor <= old(self).tokens@.len(),
        ensures
            final(self).tokens == old(self).tokens,
            final(self).cursor <= final(self).tokens@.len(),
            match (r, const_production(old(self).tokens.deep_view(), old(self).cursor as int)) {
                (Result::Ok(c), Option::Some(pc)) => c@ == pc.0 && final(self).cursor == pc.1
                    && old(self).cursor < final(self).cursor,
                (Result::Err(_), Option::None) => final(self).cursor == old(self).cursor,
                _ => false,
            },
    {
        let n = self.tokens.len();
        if n < 4 || self.cursor > n - 4 {
            return Err(());
        }
        if self.tokens[self.cursor].ttype != TokenType::Const {
            return Err(());
        }
        if self.tokens[self.cursor + 1].ttype != TokenType::Identifier {
            return Err(());
        }
        if self.tokens[self.cursor + 2].ttype != TokenType::Assign {
            return Err(());
        }
        if self.tokens[self.cursor + 3].ttype != TokenType::Literal {
            return Err(());
        }
        let name = self.tokens[self.cursor + 1].slice.clone();
        let value = self.tokens[self.cursor + 3].slice.clone();
        self.cursor = self.cursor + 4;
        Ok(Constant { name, value })
    }

    /// Run definition extraction from the cursor to the end of the input,
    /// as `extract_from`.
    pub fn extract_definitions(&mut self) -> (r: Result<(Vec<Macro>, Vec<Constant>), AsmError>)
        requires
            old(self).cursor <= old(self).tokens@.len(),
        ensures
            final(self).tokens == old(self).tokens,
            match r {
                Result::Ok(defs) => extract_from(
                    old(self).tokens.deep_view(),
                    old(self).cursor as int,
                    Seq::empty(),
                    Seq::empty(),
                ) == Result::<(Seq<MacroV>, Seq<ConstantV>), AsmErrorV>::Ok(
                    (defs.0.deep_view(), defs.1.deep_view()),
                ),
                Result::Err(e) => extract_from(
                    old(self).tokens.deep_view(),
                    old(self).cursor as int,
                    Seq::empty(),
                    Seq::empty(),
                ) == Result::<(Seq<MacroV>, Seq<ConstantV>), AsmErrorV>::Err(e@),
            },
    {
        let ghost toks = self.tokens.deep_view();
        let ghost c0 = old(self).cursor as int;
        let mut ms: Vec<Macro> = Vec::new();
        let mut cs: Vec<Constant> = Vec::new();
        proof {
            assert(ms.deep_view() =~= Seq::<MacroV>::empty());
            assert(cs.deep_view() =~= Seq::<ConstantV>::empty());
        }
        while self.cursor < self.tokens.len()
            invariant
                self.cursor <= self.tokens@.len(),
                self.tokens == old(self).tokens,
                toks == self.tokens.deep_view(),
                c0 == old(self).cursor as int,
                extract_from(toks, c0, Seq::empty(), Seq::empty()) == extract_from(
                    toks,
                    self.cursor as int,
                    ms.deep_view(),
                    cs.deep_view(),
                ),
            decreases self.tokens@.len() - self.cursor,
        {
            let ghost cur = self.cursor as int;
            match self.parse_macro() {
                Ok(m) => {
                    match find_macro(&ms, m.name.as_str()) {
                        Some(_) => {
                            return Err(AsmError::DuplicateDefinition { name: m.name });
                        },
                        None => {
                            let ghost prev = ms@;
                            let ghost pre = ms.deep_view();
                            let ghost mv = m@;
                            ms.push(m);
                            proof {
                                assert(ms.deep_view()[pre.len() as int] == ms@[pre.len() as int].deep_view());
                                assert forall|k: int| 0 <= k < pre.len() implies ms.deep_view()[k]
                                    == pre[k] by {
                                    assert(ms@[k] == prev[k]);
                                    assert(pre[k] == prev[k].deep_view());
                                }
                                assert(ms.deep_view() =~= pre.push(mv));
                            }
                        },
                    }
                },
                Err(_) => {
                    match self.parse_constant() {
                        Ok(c) => {
                            match find_constant(&cs, c.name.as_str()) {
                                Some(_) => {
                                    return Err(AsmError::DuplicateDefinition { name: c.name });
                                },
                                None => {
                                    let ghost prev = cs@;
                                    let ghost pre = cs.deep_view();
                                    let ghost cv = c@;
                                    cs.push(c);
                                    proof {
                                        assert(cs.deep_view()[pre.len() as int] == cs@[pre.len() as int].deep_view());
                                        assert forall|k: int| 0 <= k < pre.len() implies cs.deep_view()[k]
                                            == pre[k] by {
                                            assert(cs@[k] == prev[k]);
                                            assert(pre[k] == prev[k].deep_view());
                                        }
                                        assert(cs.deep_view() =~= pre.push(cv));
                                    }
                                },
                            }
                        },
                        Err(_) => {
                            let kind = self.tokens[self.cursor].ttype;
                            return Err(AsmError::UnexpectedToken { kind, pos: self.cursor });
                        },
                    }
                },
            }
        }
        Ok((ms, cs))
    }
}

/// One single-level expansion pass over `body`, as `expand_tokens`; the
/// flag reports whether any invocation of a known macro was replaced.
fn expand_pass(body: &Vec<Token>, ms: &Vec<Macro>) -> (r: (Vec<Token>, bool))
    ensures
        r.0.deep_view() == expand_tokens(body.deep_view(), ms.deep_view()),
        r.1 == has_invocation(body.deep_view(), ms.deep_view()),
{
    let ghost bv = body.deep_view();
    let ghost mv = ms.deep_view();
    let mut out: Vec<Token> = Vec::new();
    let mut found = false;
    let mut i: usize = 0;
    proof {
        assert(bv.skip(0) =~= bv);
        assert(out.deep_view() =~= Seq::<TokenV>::empty());
        assert(Seq::<TokenV>::empty() + expand_tokens(bv, mv) =~= expand_tokens(bv, mv));
    }
    while i < body.len()
        invariant
            0 <= i <= body.len(),
            bv == body.deep_view(),
            mv == ms.deep_view(),
            expand_tokens(bv, mv) == out.deep_view() + expand_tokens(bv.skip(i as int), mv),
            found ==> has_invocation(bv, mv),
            !found ==> forall|k: int|
                0 <= k < i ==> !(#[trigger] bv[k].ttype == TokenType::Identifier && lookup_macro(
                    mv,
                    bv[k].slice,
                ) is Some),
        decreases body.len() - i,
    {
        proof {
            assert(body.deep_view()[i as int] == body@[i as int].deep_view());
            assert(bv.skip(i as int)[0] == bv[i as int]);
            assert(bv.skip(i as int).drop_first() =~= bv.skip(i + 1));
        }
        let t = &body[i];
        let ghost pre = out.deep_view();
        let mut replaced = false;
        if t.ttype == TokenType::Identifier {
            match find_macro(ms, t.slice.as_str()) {
                Some(m) => {
                    let mut j: usize = 0;
                    proof {
                        assert(pre + m.body.deep_view().take(0) =~= pre);
                    }
                    while j < m.body.len()
                        invariant
                            0 <= j <= m.body.len(),
                            out@.len() == pre.len() + j,
                            out.deep_view() =~= pre + m.body.deep_view().take(j as int),
                        decreases m.body.len() - j,
                    {
                        let ghost prev = out@;
                        let ghost preo = out.deep_view();
                        out.push(copy_token(&m.body[j]));
                        proof {
                            assert(preo.len() == prev.len());
                            assert(out.deep_view()[prev.len() as int] == out@[prev.len() as int].deep_view());
                            assert(m.body.deep_view()[j as int] == m.body@[j as int].deep_view());
                            assert forall|k: int| 0 <= k < prev.len() implies out.deep_view()[k]
                                == preo[k] by {
                                assert(out@[k] == prev[k]);
                                assert(preo[k] == prev[k].deep_view());
                                assert(out.deep_view()[k] == out@[k].deep_view());
                            }
                            let full = pre + m.body.deep_view().take(j + 1);
                            assert(full.len() == pre.len() + j + 1);
                            assert forall|k: int| 0 <= k < out.deep_view().len() implies out.deep_view()[k]
                                == full[k] by {
                                if k < prev.len() {
                                    assert(preo[k] == (pre + m.body.deep_view().take(j as int))[k]);
                                    if k >= pre.len() {
                                        assert((pre + m.body.deep_view().take(j as int))[k]
                                            == m.body.deep_view().take(j as int)[k - pre.len()]);
                                        assert(full[k] == m.body.deep_view().take(j + 1)[k - pre.len()]);
                                    }
                                } else {
                                    assert(k == pre.len() + j);
                                    assert(full[k] == m.body.deep_view()[j as int]);
                                }
                            }
                            assert(out.deep_view() =~= pre + m.body.deep_view().take(j + 1));
                        }
                        j = j + 1;
                    }
                    proof {
                        assert(m.body.deep_view().take(m.body@.len() as int) =~= m.body.deep_view());
                        assert(out.deep_view() =~= pre + expansion_of(bv[i as int], mv));
                    }
                    replaced = true;
                },
                None => {
                    let ghost prev = out@;
                    out.push(copy_token(t));
                    proof {
                        assert(out.deep_view()[pre.len() as int] == out@[pre.len() as int].deep_view());
                        assert forall|k: int| 0 <= k < pre.len() implies out.deep_view()[k] == pre[k] by {
                            assert(out@[k] == prev[k]);
                            assert(pre[k] == prev[k].deep_view());
                        }
                        assert(out.deep_view() =~= pre + expansion_of(bv[i as int], mv));
                    }
                },
            }
        } else {
            let ghost prev = out@;
            out.push(copy_token(t));
            proof {
                assert(out.deep_view()[pre.len() as int] == out@[pre.len() as int].deep_view());
                assert forall|k: int| 0 <= k < pre.len() implies out.deep_view()[k] == pre[k] by {
                    assert(out@[k] == prev[k]);
                    assert(pre[k] == prev[k].deep_view());
                }
                assert(out.deep_view() =~= pre + expansion_of(bv[i as int], mv));
            }
        }
        if replaced {
            found = true;
        }
        proof {
            assert(expand_tokens(bv.skip(i as int), mv) == expansion_of(bv[i as int], mv)
                + expand_tokens(bv.skip(i + 1), mv));
            assert(out.deep_view() + expand_tokens(bv.skip(i + 1), mv) =~= pre + expand_tokens(
                bv.skip(i as int),
                mv,
            ));
        }
        i = i + 1;
    }
    proof {
        assert(bv.skip(bv.len() as int) =~= Seq::<TokenV>::empty());
        assert(out.deep_view() + Seq::<TokenV>::empty() =~= out.deep_view());
        if !found {
            assert(forall|k: int|
                0 <= k < bv.len() ==> !(#[trigger] bv[k].ttype == TokenType::Identifier
                    && lookup_macro(mv, bv[k].slice) is Some));
        }
    }
    (out, found)
}

/// Iterated single-level expansion with one pass per macro, as
/// `expand_full`; a pass budget that runs out proves a cyclic invocation.
fn expand_all(body: &Vec<Token>, ms: &Vec<Macro>) -> (r: Result<Vec<Token>, AsmError>)
    ensures
        match r {
            Result::Ok(v) => expand_full(body.deep_view(), ms.deep_view(), ms.deep_view().len())
                == Option::Some(v.deep_view()),
            Result::Err(e) => e@ == AsmErrorV::CyclicMacroExpansion && expand_full(
                body.deep_view(),
                ms.deep_view(),
                ms.deep_view().len(),
            ) is None,
        },
{
    let ghost mv = ms.deep_view();
    let fuel0 = ms.len();
    let mut cur = clone_tokens(body);
    let mut fuel = fuel0;
    loop
        invariant
            fuel <= fuel0,
            fuel0 == mv.len(),
            mv == ms.deep_view(),
            expand_full(cur.deep_view(), mv, fuel as nat) == expand_full(
                body.deep_view(),
                mv,
                fuel0 as nat,
            ),
        decreases fuel,
    {
        let (next, had) = expand_pass(&cur, ms);
        if !had {
            proof {
                assert(expand_full(cur.deep_view(), mv, fuel as nat) == Option::Some(
                    cur.deep_view(),
                ));
            }
            return Ok(cur);
        }
        if fuel == 0 {
            proof {
                assert(expand_full(cur.deep_view(), mv, 0nat) is None);
            }
            return Err(AsmError::CyclicMacroExpansion);
        }
        cur = next;
        fuel = fuel - 1;
    }
}

/// Constant substitution over `body`, as `subst_tokens`.
fn subst_pass(body: &Vec<Token>, cs: &Vec<Constant>) -> (r: Result<Vec<Token>, AsmError>)
    ensures
        match r {
            Result::Ok(v) => subst_tokens(body.deep_view(), cs.deep_view()) == Result::<
                Seq<TokenV>,
                Seq<char>,
            >::Ok(v.deep_view()),
            Result::Err(e) => match e@ {
                AsmErrorV::UnknownIdentifier { name } => subst_tokens(
                    body.deep_view(),
                    cs.deep_view(),
                ) == Result::<Seq<TokenV>, Seq<char>>::Err(name),
                _ => false,
            },
        },
{
    let ghost bv = body.deep_view();
    let ghost cv = cs.deep_view();
    let mut out: Vec<Token> = Vec::new();
    let mut i: usize = 0;
    proof {
        assert(bv.skip(0) =~= bv);
        assert(out.deep_view() =~= Seq::<TokenV>::empty());
        match subst_tokens(bv, cv) {
            Result::Ok(rest) => {
                assert(Seq::<TokenV>::empty() + rest =~= rest);
            },
            Result::Err(_) => {},
        }
    }
    while i < body.len()
        invariant
            0 <= i <= body.len(),
            bv == body.deep_view(),
            cv == cs.deep_view(),
            match subst_tokens(bv.skip(i as int), cv) {
                Result::Ok(rest) => subst_tokens(bv, cv) == Result::<Seq<TokenV>, Seq<char>>::Ok(
                    out.deep_view() + rest,
                ),
                Result::Err(e) => subst_tokens(bv, cv) == Result::<Seq<TokenV>, Seq<char>>::Err(e),
            },
        decreases body.len() - i,
    {
        proof {
            assert(body.deep_view()[i as int] == body@[i as int].deep_view());
            assert(bv.skip(i as int)[0] == bv[i as int]);
            assert(bv.skip(i as int).drop_first() =~= bv.skip(i + 1));
        }
        let t = &body[i];
        let ghost pre = out.deep_view();
        let ghost prev = out@;
        let ghost rep = if bv[i as int].ttype == TokenType::Identifier {
            match lookup_constant(cv, bv[i as int].slice) {
                Option::Some(c) => TokenV { ttype: TokenType::Literal, slice: c.value },
                Option::None => bv[i as int],
            }
        } else {
            bv[i as int]
        };
        if t.ttype == TokenType::Identifier {
            match find_constant(cs, t.slice.as_str()) {
                Some(c) => {
                    out.push(Token { ttype: TokenType::Literal, slice: c.value });
                },
                None => {
                    return Err(AsmError::UnknownIdentifier { name: t.slice.clone() });
                },
            }
        } else {
            out.push(copy_token(t));
        }
        proof {
            assert(out@ == prev.push(out@.last()));
            assert(out.deep_view()[pre.len() as int] == out@[pre.len() as int].deep_view());
            assert forall|k: int| 0 <= k < pre.len() implies out.deep_view()[k] == pre[k] by {
                assert(out@[k] == prev[k]);
                assert(pre[k] == prev[k].deep_view());
            }
            assert(out.deep_view() =~= pre.push(rep));
            match subst_tokens(bv.skip(i + 1), cv) {
                Result::Ok(rest) => {
                    assert(pre.push(rep) + rest =~= pre + (seq![rep] + rest));
                },
                Result::Err(_) => {},
            }
        }
        i = i + 1;
    }
    proof {
        assert(bv.skip(bv.len() as int) =~= Seq::<TokenV>::empty());
        assert(out.deep_view() + Seq::<TokenV>::empty() =~= out.deep_view());
    }
    Ok(out)
}

fn fixed_op(t: TokenType) -> (r: Option<Opcode>)
    ensures
        r == fixed_opcode(t),
{
    match t {
        TokenType::Pop => Some(Opcode::Pop),
        TokenType::Add => Some(Opcode::Add),
        TokenType::AddSymb => Some(Opcode::Add),
        TokenType::Sub => Some(Opcode::Sub),
        TokenType::SubSymb => Some(Opcode::Sub),
        TokenType::Mul => Some(Opcode::Mul),
        TokenType::MulSymb => Some(Opcode::Mul),
        TokenType::Dup => Some(Opcode::Dup),
        TokenType::Sqrt => Some(Opcode::Sqrt),
        TokenType::Pc => Some(Opcode::Pc),
        TokenType::Print => Some(Opcode::Print),
        TokenType::Halt => Some(Opcode::Halt),
        TokenType::Pi => Some(Opcode::Get(1)),
        TokenType::Tau => Some(Opcode::Get(2)),
        TokenType::E => Some(Opcode::Get(3)),
        _ => None,
    }
}

/// Code generation over a finished token stream, as `codegen_from`.
fn generate(toks: &Vec<Token>) -> (r: Result<Vec<Opcode>, AsmError>)
    ensures
        ops_result_view(r) == codegen_from(toks.deep_view(), 0),
{
    let ghost tv = toks.deep_view();
    let mut out: Vec<Opcode> = Vec::new();
    let mut i: usize = 0;
    proof {
        match codegen_from(tv, 0) {
            Result::Ok(rest) => {
                assert(out@ + rest =~= rest);
            },
            Result::Err(_) => {},
        }
    }
    while i < toks.len()
        invariant
            0 <= i <= toks.len(),
            tv == toks.deep_view(),
            match codegen_from(tv, i as int) {
                Result::Ok(rest) => codegen_from(tv, 0) == Result::<Seq<Opcode>, AsmErrorV>::Ok(
                    out@ + rest,
                ),
                Result::Err(e) => codegen_from(tv, 0) == Result::<Seq<Opcode>, AsmErrorV>::Err(e),
            },
        decreases toks.len() - i,
    {
        proof {
            assert(toks.deep_view()[i as int] == toks@[i as int].deep_view());
        }
        let ghost prev = out@;
        let tt = toks[i].ttype;
        match fixed_op(tt) {
            Some(op) => {
                out.push(op);
                proof {
                    match codegen_from(tv, i + 1) {
                        Result::Ok(rest) => {
                            assert(prev.push(op) + rest =~= prev + (seq![op] + rest));
                        },
                        Result::Err(_) => {},
                    }
                }
                i = i + 1;
            },
            None => {
                if tt == TokenType::Push {
                    if i + 1 < toks.len() && toks[i + 1].ttype == TokenType::Literal
                        && check_literal(toks[i + 1].slice.as_str()) {
                        proof {
                            assert(toks.deep_view()[i + 1] == toks@[i + 1].deep_view());
                        }
                        let v = parse_literal(toks[i + 1].slice.as_str());
                        let op = Opcode::Push(v);
                        out.push(op);
                        proof {
                            match codegen_from(tv, i + 2) {
                                Result::Ok(rest) => {
                                    assert(prev.push(op) + rest =~= prev + (seq![op] + rest));
                                },
                                Result::Err(_) => {},
                            }
                        }
                        i = i + 2;
                    } else {
                        proof {
                            if i + 1 < tv.len() {
                                assert(toks.deep_view()[i + 1] == toks@[i + 1].deep_view());
                            }
                        }
                        return Err(AsmError::MalformedOperand { pos: i });
                    }
                } else if tt == TokenType::Jump || tt == TokenType::Store || tt == TokenType::Get
                    || tt == TokenType::GetSymb || tt == TokenType::Assign {
                    if i + 1 < toks.len() && toks[i + 1].ttype == TokenType::Literal {
                        proof {
                            assert(toks.deep_view()[i + 1] == toks@[i + 1].deep_view());
                        }
                        match parse_index(toks[i + 1].slice.as_str()) {
                            Some(k) => {
                                let op = if tt == TokenType::Jump {
                                    Opcode::Jump(k)
                                } else if tt == TokenType::Get || tt == TokenType::GetSymb {
                                    Opcode::Get(k)
                                } else {
                                    Opcode::Store(k)
                                };
                                out.push(op);
                                proof {
                                    match codegen_from(tv, i + 2) {
                                        Result::Ok(rest) => {
                                            assert(prev.push(op) + rest =~= prev + (seq![op]
                                                + rest));
                                        },
                                        Result::Err(_) => {},
                                    }
                                }
                                i = i + 2;
                            },
                            None => {
                                return Err(AsmError::MalformedOperand { pos: i });
                            },
                        }
                    } else {
                        proof {
                            if i + 1 < tv.len() {
                                assert(toks.deep_view()[i + 1] == toks@[i + 1].deep_view());
                            }
                        }
                        return Err(AsmError::MalformedOperand { pos: i });
                    }
                } else if tt == TokenType::Literal || tt == TokenType::Comment {
                    i = i + 1;
                } else {
                    return Err(AsmError::UnexpectedToken { kind: tt, pos: i });
                }
            },
        }
    }
    proof {
        assert(out@ + Seq::<Opcode>::empty() =~= out@);
    }
    Ok(out)
}

impl Assembler {
    /// Run the whole assembly pipeline over this parser's tokens, as
    /// `assemble_spec`: definition extraction, location of `main`, macro
    /// expansion, constant substitution, and code generation.
    pub fn assemble(&mut self) -> (r: Result<Vec<Opcode>, AsmError>)
        requires
            old(self).cursor == 0,
        ensures
            final(self).tokens == old(self).tokens,
            ops_result_view(r) == assemble_spec(old(self).tokens.deep_view()),
    {
        let defs = match self.extract_definitions() {
            Ok(d) => d,
            Err(e) => {
                return Err(e);
            },
        };
        let (ms, cs) = defs;
        let entry = match find_macro(&ms, "main") {
            Some(m) => m,
            None => {
                return Err(AsmError::MissingEntryPoint);
            },
        };
        let expanded = match expand_all(&entry.body, &ms) {
            Ok(v) => v,
            Err(e) => {
                return Err(e);
            },
        };
        let stream = match subst_pass(&expanded, &cs) {
            Ok(v) => v,
            Err(e) => {
                return Err(e);
            },
        };
        generate(&stream)
    }
}

/// Compile source text to opcodes: lexing, then the assembly pipeline, as
/// `compile_spec`.
pub fn compile(source: &str) -> (r: Result<Vec<Opcode>, AsmError>)
    ensures
        ops_result_view(r) == compile_spec(source@),
{
    let tokens = Token::lex(source);
    let mut parser = Assembler::new(tokens);
    parser.assemble()
}



/// The number of mnemonic tokens from position `i` on.
pub open spec fn mnemonic_count(toks: Seq<TokenV>, i: int) -> int
    decreases toks.len() - i,
{
    if i < 0 || i >= toks.len() {
        0
    } else {
        (if is_mnemonic(toks[i].ttype) {
            1int
        } else {
            0int
        }) + mnemonic_count(toks, i + 1)
    }
}

/// When code generation succeeds, it emits exactly one opcode per
/// mnemonic token of the stream: literals (consumed as operands or not)
/// and comments contribute none. Over `assemble_spec`, the stream is the
/// fully expanded, constant-substituted token sequence.
pub proof fn lemma_codegen_length(toks: Seq<TokenV>, i: int, ops: Seq<Opcode>)
    requires
        0 <= i,
        codegen_from(toks, i) == Result::<Seq<Opcode>, AsmErrorV>::Ok(ops),
    ensures
        ops.len() == mnemonic_count(toks, i),
    decreases toks.len() - i,
{
    if i < toks.len() {
        let tt = toks[i].ttype;
        match fixed_opcode(tt) {
            Option::Some(op) => {
                match codegen_from(toks, i + 1) {
                    Result::Ok(rest) => {
                        lemma_codegen_length(toks, i + 1, rest);
                        assert(ops == seq![op] + rest);
                        assert(ops.len() == 1 + rest.len());
                        assert(is_mnemonic(tt));
                    },
                    Result::Err(_) => {},
                }
            },
            Option::None => {
                if tt == TokenType::Push || takes_index(tt) {
                    match codegen_from(toks, i + 2) {
                        Result::Ok(rest) => {
                            lemma_codegen_length(toks, i + 2, rest);
                            assert(i + 1 < toks.len() && toks[i + 1].ttype == TokenType::Literal);
                            assert(!is_mnemonic(TokenType::Literal));
                            assert(mnemonic_count(toks, i + 1) == mnemonic_count(toks, i + 2));
                            match index_spec(toks[i + 1].slice) {
                                Option::Some(k) => {
                                    assert(ops.len() == 1 + rest.len());
                                },
                                Option::None => {
                                    assert(tt == TokenType::Push);
                                    assert(ops.len() == 1 + rest.len());
                                },
                            }
                        },
                        Result::Err(_) => {},
                    }
                } else {
                    match codegen_from(toks, i + 1) {
                        Result::Ok(rest) => {
                            lemma_codegen_length(toks, i + 1, rest);
                            assert(!is_mnemonic(tt));
                            assert(ops == rest);
                        },
                        Result::Err(_) => {},
                    }
                }
            },
        }
    }
}

/// One expansion pass distributes over concatenation: tokens are expanded
/// independently of what stands around them.
pub proof fn lemma_expand_concat(a: Seq<TokenV>, b: Seq<TokenV>, ms: Seq<MacroV>)
    ensures
        expand_tokens(a + b, ms) == expand_tokens(a, ms) + expand_tokens(b, ms),
    decreases a.len(),
{
    if a.len() == 0 {
        assert(a + b =~= b);
        assert(expand_tokens(a, ms) + expand_tokens(b, ms) =~= expand_tokens(b, ms));
    } else {
        assert((a + b)[0] == a[0]);
        assert((a + b).drop_first() =~= a.drop_first() + b);
        lemma_expand_concat(a.drop_first(), b, ms);
        assert(expansion_of(a[0], ms) + (expand_tokens(a.drop_first(), ms) + expand_tokens(b, ms))
            =~= (expansion_of(a[0], ms) + expand_tokens(a.drop_first(), ms)) + expand_tokens(
            b,
            ms,
        ));
    }
}

/// Macro expansion is order-preserving and single-level: an invocation of
/// a known macro standing between `pre` and `post` is replaced by exactly
/// that macro's body, in place, while the surrounding tokens are expanded
/// independently and undisturbed.
pub proof fn lemma_expansion_in_place(
    pre: Seq<TokenV>,
    name: Seq<char>,
    post: Seq<TokenV>,
    ms: Seq<MacroV>,
    m: MacroV,
)
    requires
        lookup_macro(ms, name) == Option::Some(m),
    ensures
        expand_tokens(pre + seq![TokenV { ttype: TokenType::Identifier, slice: name }] + post, ms)
            == expand_tokens(pre, ms) + m.body + expand_tokens(post, ms),
{
    let inv = seq![TokenV { ttype: TokenType::Identifier, slice: name }];
    lemma_expand_concat(pre + inv, post, ms);
    lemma_expand_concat(pre, inv, ms);
    assert(inv.drop_first() =~= Seq::<TokenV>::empty());
    assert(expand_tokens(Seq::<TokenV>::empty(), ms) =~= Seq::<TokenV>::empty());
    assert(expand_tokens(inv.drop_first(), ms) =~= Seq::<TokenV>::empty());
    assert(inv[0] == TokenV { ttype: TokenType::Identifier, slice: name });
    assert(expansion_of(inv[0], ms) == m.body);
    assert(expand_tokens(inv, ms) =~= m.body + Seq::<TokenV>::empty());
    assert(m.body + Seq::<TokenV>::empty() =~= m.body);
    assert((expand_tokens(pre, ms) + m.body) + expand_tokens(post, ms) =~= expand_tokens(pre, ms)
        + m.body + expand_tokens(post, ms));
}

/// Constant substitution distributes over concatenation when its left
/// part succeeds: the remainder is substituted independently, and an
/// error there is the whole result.
pub proof fn lemma_subst_concat(a: Seq<TokenV>, b: Seq<TokenV>, cs: Seq<ConstantV>, ra: Seq<TokenV>)
    requires
        subst_tokens(a, cs) == Result::<Seq<TokenV>, Seq<char>>::Ok(ra),
    ensures
        subst_tokens(a + b, cs) == match subst_tokens(b, cs) {
            Result::Ok(rb) => Result::<Seq<TokenV>, Seq<char>>::Ok(ra + rb),
            Result::Err(e) => Result::<Seq<TokenV>, Seq<char>>::Err(e),
        },
    decreases a.len(),
{
    if a.len() == 0 {
        assert(a + b =~= b);
        assert(ra =~= Seq::<TokenV>::empty());
        match subst_tokens(b, cs) {
            Result::Ok(rb) => {
                assert(ra + rb =~= rb);
            },
            Result::Err(_) => {},
        }
    } else {
        assert((a + b)[0] == a[0]);
        assert((a + b).drop_first() =~= a.drop_first() + b);
        match subst_tokens(a.drop_first(), cs) {
            Result::Ok(rest) => {
                lemma_subst_concat(a.drop_first(), b, cs, rest);
                let h = if a[0].ttype == TokenType::Identifier {
                    match lookup_constant(cs, a[0].slice) {
                        Option::Some(c) => seq![TokenV { ttype: TokenType::Literal, slice: c.value }],
                        Option::None => seq![a[0]],
                    }
                } else {
                    seq![a[0]]
                };
                assert(ra == h + rest);
                match subst_tokens(b, cs) {
                    Result::Ok(rb) => {
                        assert(h + (rest + rb) =~= (h + rest) + rb);
                    },
                    Result::Err(_) => {},
                }
            },
            Result::Err(_) => {},
        }
    }
}

/// When assembly succeeds, the opcode sequence is exactly as long as the
/// number of mnemonic tokens in the fully expanded, constant-substituted
/// stream: operand literals, standalone literals and comments contribute
/// no opcode.
pub proof fn lemma_assemble_opcode_count(toks: Seq<TokenV>, ops: Seq<Opcode>)
    requires
        assemble_spec(toks) == Result::<Seq<Opcode>, AsmErrorV>::Ok(ops),
    ensures
        expanded_stream(toks) is Some,
        ops.len() == mnemonic_count(expanded_stream(toks)->Some_0, 0),
{
    match extract_from(toks, 0, Seq::empty(), Seq::empty()) {
        Result::Ok(defs) => {
            match lookup_macro(defs.0, "main"@) {
                Option::Some(m) => {
                    match expand_full(m.body, defs.0, defs.0.len()) {
                        Option::Some(body) => {
                            match subst_tokens(body, defs.1) {
                                Result::Ok(stream) => {
                                    lemma_codegen_length(stream, 0, ops);
                                },
                                Result::Err(_) => {},
                            }
                        },
                        Option::None => {},
                    }
                },
                Option::None => {},
            }
        },
        Result::Err(_) => {},
    }
}

/// Constant substitution is in place: a free identifier bound to a
/// constant, standing between `pre` and `post`, becomes exactly one
/// literal token carrying the constant's value text, so the result is the
/// same token stream as if that literal had been written there by hand.
pub proof fn lemma_substitution_in_place(
    pre: Seq<TokenV>,
    name: Seq<char>,
    post: Seq<TokenV>,
    cs: Seq<ConstantV>,
    c: ConstantV,
    ra: Seq<TokenV>,
    rb: Seq<TokenV>,
)
    requires
        lookup_constant(cs, name) == Option::Some(c),
        subst_tokens(pre, cs) == Result::<Seq<TokenV>, Seq<char>>::Ok(ra),
        subst_tokens(post, cs) == Result::<Seq<TokenV>, Seq<char>>::Ok(rb),
    ensures
        subst_tokens(pre + seq![TokenV { ttype: TokenType::Identifier, slice: name }] + post, cs)
            == Result::<Seq<TokenV>, Seq<char>>::Ok(
            ra + seq![TokenV { ttype: TokenType::Literal, slice: c.value }] + rb,
        ),
{
    let inv = seq![TokenV { ttype: TokenType::Identifier, slice: name }];
    let lit = seq![TokenV { ttype: TokenType::Literal, slice: c.value }];
    assert(inv.drop_first() =~= Seq::<TokenV>::empty());
    assert(lit + Seq::<TokenV>::empty() =~= lit);
    assert(subst_tokens(Seq::<TokenV>::empty(), cs) == Result::<Seq<TokenV>, Seq<char>>::Ok(
        Seq::<TokenV>::empty(),
    ));
    assert(subst_tokens(inv.drop_first(), cs) == Result::<Seq<TokenV>, Seq<char>>::Ok(
        Seq::<TokenV>::empty(),
    ));
    assert(inv[0] == TokenV { ttype: TokenType::Identifier, slice: name });
    assert(subst_tokens(inv, cs) == Result::<Seq<TokenV>, Seq<char>>::Ok(lit));
    lemma_subst_concat(pre, inv, cs, ra);
    lemma_subst_concat(pre + inv, post, cs, ra + lit);
    assert((ra + lit) + rb =~= ra + lit + rb);
}

} // verus!
