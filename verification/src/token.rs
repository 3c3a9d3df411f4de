//! The surface syntax: token kinds, tokens, and the lexer.
//!
//! The lexer is specified by `lex_from`, a mathematical scanner over the
//! source text as a sequence of characters; `Token::lex` is proved to
//! return exactly that token sequence.

use vstd::prelude::*;

verus! {

/// Indexing the deep view of a vector is the deep view of the element.
pub broadcast proof fn lemma_vec_deep_view_index<T: DeepView>(v: Vec<T>, k: int)
    requires
        0 <= k < v@.len(),
    ensures
        #[trigger] v.deep_view()[k] == v@[k].deep_view(),
{
}

/// The kind of a surface-syntax token.
///
/// `Store` is the kind of the `set` mnemonic, which writes the top of the
/// stack into the runtime constant store. `Assign` is the `=` punctuation;
/// it serves both as the binder of a `const` definition and, in generated
/// code, as the symbolic alias of the `set` mnemonic. `Error` is the
/// catch-all kind for text the lexer cannot classify. `Comment` tokens are
/// never produced (comments are skipped); the kind exists so that the
/// closed set of kinds covers every downstream case.
#[derive(Clone, Copy, Debug, PartialEq, Eq, Structural)]
pub enum TokenType {
    Push,
    Jump,
    Store,
    Get,
    Pop,
    Add,
    Sub,
    Mul,
    Dup,
    Sqrt,
    Pc,
    Print,
    Halt,
    AddSymb,
    SubSymb,
    MulSymb,
    GetSymb,
    Assign,
    Pi,
    Tau,
    E,
    Macro,
    Const,
    Identifier,
    Literal,
    OpenBrace,
    CloseBrace,
    Comment,
    Error,
}

/// The mathematical value of a token: its kind and the text it matched.
#[verifier::ext_equal]
pub struct TokenV {
    pub ttype: TokenType,
    pub slice: Seq<char>,
}

/// One token: its kind and the exact source text it matched.
#[derive(Clone, Debug)]
pub struct Token {
    pub ttype: TokenType,
    pub slice: String,
}

impl View for Token {
    type V = TokenV;

    open spec fn view(&self) -> TokenV {
        TokenV { ttype: self.ttype, slice: self.slice@ }
    }
}

impl DeepView for Token {
    type V = TokenV;

    open spec fn deep_view(&self) -> TokenV {
        self@
    }
}

pub open spec fn is_digit(c: char) -> bool {
    '0' <= c && c <= '9'
}

pub open spec fn is_ident_start(c: char) -> bool {
    ('a' <= c && c <= 'z') || ('A' <= c && c <= 'Z') || c == '_'
}

pub open spec fn is_ident_char(c: char) -> bool {
    is_ident_start(c) || is_digit(c)
}

pub open spec fn is_space(c: char) -> bool {
    c == ' ' || c == '\t' || c == '\n' || c == '\r' || c == '\u{c}'
}

/// The first position at or after `i` that does not hold a digit.
pub open spec fn digit_run_end(s: Seq<char>, i: int) -> int
    decreases s.len() - i,
{
    if i < 0 || i >= s.len() {
        i
    } else if is_digit(s[i]) {
        digit_run_end(s, i + 1)
    } else {
        i
    }
}

/// The first position at or after `i` that does not hold an identifier character.
pub open spec fn ident_run_end(s: Seq<char>, i: int) -> int
    decreases s.len() - i,
{
    if i < 0 || i >= s.len() {
        i
    } else if is_ident_char(s[i]) {
        ident_run_end(s, i + 1)
    } else {
        i
    }
}

/// The first position at or after `i` that holds a line break, or the end.
pub open spec fn line_end(s: Seq<char>, i: int) -> int
    decreases s.len() - i,
{
    if i < 0 || i >= s.len() {
        i
    } else if s[i] == '\n' {
        i
    } else {
        line_end(s, i + 1)
    }
}

proof fn lemma_digit_run_end_bounds(s: Seq<char>, i: int)
    requires
        0 <= i <= s.len(),
    ensures
        i <= digit_run_end(s, i) <= s.len(),
    decreases s.len() - i,
{
    if i < s.len() && is_digit(s[i]) {
        lemma_digit_run_end_bounds(s, i + 1);
    }
}

proof fn lemma_ident_run_end_bounds(s: Seq<char>, i: int)
    requires
        0 <= i <= s.len(),
    ensures
        i <= ident_run_end(s, i) <= s.len(),
    decreases s.len() - i,
{
    if i < s.len() && is_ident_char(s[i]) {
        lemma_ident_run_end_bounds(s, i + 1);
    }
}

proof fn lemma_line_end_bounds(s: Seq<char>, i: int)
    requires
        0 <= i <= s.len(),
    ensures
        i <= line_end(s, i) <= s.len(),
    decreases s.len() - i,
{
    if i < s.len() && s[i] != '\n' {
        lemma_line_end_bounds(s, i + 1);
    }
}

/// The end of a maximal numeric-literal body `([0-9]*\.)?[0-9]+` starting
/// at `i`, or `i` itself when no such body starts there.
pub open spec fn lit_end(s: Seq<char>, i: int) -> int {
    let d1 = digit_run_end(s, i);
    if d1 < s.len() && s[d1] == '.' && d1 + 1 < s.len() && is_digit(s[d1 + 1]) {
        digit_run_end(s, d1 + 1)
    } else {
        d1
    }
}

/// The kind of a complete word of identifier characters: a mnemonic
/// keyword, or a free identifier.
pub open spec fn keyword_type(w: Seq<char>) -> TokenType {
    if w == "push"@ {
        TokenType::Push
    } else if w == "jump"@ {
        TokenType::Jump
    } else if w == "set"@ {
        TokenType::Store
    } else if w == "get"@ {
        TokenType::Get
    } else if w == "pop"@ {
        TokenType::Pop
    } else if w == "add"@ {
        TokenType::Add
    } else if w == "sub"@ {
        TokenType::Sub
    } else if w == "mul"@ {
        TokenType::Mul
    } else if w == "dup"@ {
        TokenType::Dup
    } else if w == "sqrt"@ {
        TokenType::Sqrt
    } else if w == "pc"@ {
        TokenType::Pc
    } else if w == "print"@ {
        TokenType::Print
    } else if w == "halt"@ {
        TokenType::Halt
    } else if w == "pi"@ {
        TokenType::Pi
    } else if w == "tau"@ {
        TokenType::Tau
    } else if w == "e"@ {
        TokenType::E
    } else if w == "macro"@ {
        TokenType::Macro
    } else if w == "const"@ {
        TokenType::Const
    } else {
        TokenType::Identifier
    }
}

/// What one scan step at position `i` yields: at most one token, and the
/// position where the next step starts.
#[verifier::ext_equal]
pub struct ScanV {
    pub tok: Option<TokenV>,
    pub next: int,
}

/// One scan step of the lexer at position `i`: skip one whitespace
/// character or one comment, or match the longest token starting at `i`.
pub open spec fn scan_at(s: Seq<char>, i: int) -> ScanV
    recommends
        0 <= i < s.len(),
{
    let c = s[i];
    if is_space(c) {
        ScanV { tok: None, next: i + 1 }
    } else if c == '/' && i + 1 < s.len() && s[i + 1] == '/' {
        ScanV { tok: None, next: line_end(s, i) }
    } else if c == '{' {
        ScanV { tok: Some(TokenV { ttype: TokenType::OpenBrace, slice: s.subrange(i, i + 1) }), next: i + 1 }
    } else if c == '}' {
        ScanV { tok: Some(TokenV { ttype: TokenType::CloseBrace, slice: s.subrange(i, i + 1) }), next: i + 1 }
    } else if c == '=' {
        ScanV { tok: Some(TokenV { ttype: TokenType::Assign, slice: s.subrange(i, i + 1) }), next: i + 1 }
    } else if c == '$' {
        ScanV { tok: Some(TokenV { ttype: TokenType::GetSymb, slice: s.subrange(i, i + 1) }), next: i + 1 }
    } else if c == '*' {
        ScanV { tok: Some(TokenV { ttype: TokenType::MulSymb, slice: s.subrange(i, i + 1) }), next: i + 1 }
    } else if c == '+' || c == '-' {
        let e = lit_end(s, i + 1);
        if e > i + 1 {
            ScanV { tok: Some(TokenV { ttype: TokenType::Literal, slice: s.subrange(i, e) }), next: e }
        } else if c == '+' {
            ScanV { tok: Some(TokenV { ttype: TokenType::AddSymb, slice: s.subrange(i, i + 1) }), next: i + 1 }
        } else {
            ScanV { tok: Some(TokenV { ttype: TokenType::SubSymb, slice: s.subrange(i, i + 1) }), next: i + 1 }
        }
    } else if is_digit(c) || c == '.' {
        let e = lit_end(s, i);
        if e > i {
            ScanV { tok: Some(TokenV { ttype: TokenType::Literal, slice: s.subrange(i, e) }), next: e }
        } else {
            ScanV { tok: Some(TokenV { ttype: TokenType::Error, slice: s.subrange(i, i + 1) }), next: i + 1 }
        }
    } else if is_ident_start(c) {
        let e = ident_run_end(s, i + 1);
        ScanV { tok: Some(TokenV { ttype: keyword_type(s.subrange(i, e)), slice: s.subrange(i, e) }), next: e }
    } else {
        ScanV { tok: Some(TokenV { ttype: TokenType::Error, slice: s.subrange(i, i + 1) }), next: i + 1 }
    }
}

/// Every scan step consumes at least one character and stays inside the text.
pub proof fn lemma_scan_at_bounds(s: Seq<char>, i: int)
    requires
        0 <= i < s.len(),
    ensures
        i < scan_at(s, i).next <= s.len(),
{
    lemma_digit_run_end_bounds(s, i);
    lemma_line_end_bounds(s, i + 1);
    if i + 1 <= s.len() {
        lemma_digit_run_end_bounds(s, i + 1);
        lemma_ident_run_end_bounds(s, i + 1);
        let d1 = digit_run_end(s, i + 1);
        if d1 + 1 <= s.len() {
            lemma_digit_run_end_bounds(s, d1 + 1);
        }
        let d0 = digit_run_end(s, i);
        if d0 + 1 <= s.len() {
            lemma_digit_run_end_bounds(s, d0 + 1);
        }
    }
}

/// The token sequence that the lexer yields from position `i` on.
///
/// The bound on the next position only guards well-foundedness; by
/// `lemma_scan_at_bounds` it never takes effect.
pub open spec fn lex_from(s: Seq<char>, i: int) -> Seq<TokenV>
    decreases s.len() - i,
{
    if i < 0 || i >= s.len() {
        Seq::empty()
    } else {
        let sc = scan_at(s, i);
        let next = if i < sc.next <= s.len() { sc.next } else { i + 1 };
        match sc.tok {
            Option::None => lex_from(s, next),
            Option::Some(t) => seq![t] + lex_from(s, next),
        }
    }
}

/// Whether `s` has, as a whole, the shape of a numeric literal:
/// `[+-]?([0-9]*\.)?[0-9]+`. After the optional sign, a maximal literal
/// body must start there and consume every remaining character.
pub open spec fn is_literal_text(s: Seq<char>) -> bool {
    let b: int = if s.len() > 0 && (s[0] == '+' || s[0] == '-') {
        1
    } else {
        0
    };
    s.len() > b && lit_end(s, b) == s.len()
}

pub(crate) fn char_is_digit(c: char) -> (b: bool)
    ensures
        b == is_digit(c),
{
    c >= '0' && c <= '9'
}

fn char_is_ident_start(c: char) -> (b: bool)
    ensures
        b == is_ident_start(c),
{
    (c >= 'a' && c <= 'z') || (c >= 'A' && c <= 'Z') || c == '_'
}

fn char_is_ident(c: char) -> (b: bool)
    ensures
        b == is_ident_char(c),
{
    char_is_ident_start(c) || char_is_digit(c)
}

fn char_is_space(c: char) -> (b: bool)
    ensures
        b == is_space(c),
{
    c == ' ' || c == '\t' || c == '\n' || c == '\r' || c == '\u{c}'
}

/// Whether the views of two text slices are equal character sequences.
pub fn str_eq(a: &str, b: &str) -> (r: bool)
    ensures
        r == (a@ == b@),
{
    let la = a.unicode_len();
    let lb = b.unicode_len();
    if la != lb {
        return false;
    }
    let mut i: usize = 0;
    while i < la
        invariant
            la == a@.len(),
            la == b@.len(),
            0 <= i <= la,
            forall|k: int| 0 <= k < i ==> a@[k] == b@[k],
        decreases la - i,
    {
        if a.get_char(i) != b.get_char(i) {
            return false;
        }
        i = i + 1;
    }
    proof {
        assert(a@ =~= b@);
    }
    true
}

fn classify_word(w: &str) -> (t: TokenType)
    ensures
        t == keyword_type(w@),
{
    if str_eq(w, "push") {
        TokenType::Push
    } else if str_eq(w, "jump") {
        TokenType::Jump
    } else if str_eq(w, "set") {
        TokenType::Store
    } else if str_eq(w, "get") {
        TokenType::Get
    } else if str_eq(w, "pop") {
        TokenType::Pop
    } else if str_eq(w, "add") {
        TokenType::Add
    } else if str_eq(w, "sub") {
        TokenType::Sub
    } else if str_eq(w, "mul") {
        TokenType::Mul
    } else if str_eq(w, "dup") {
        TokenType::Dup
    } else if str_eq(w, "sqrt") {
        TokenType::Sqrt
    } else if str_eq(w, "pc") {
        TokenType::Pc
    } else if str_eq(w, "print") {
        TokenType::Print
    } else if str_eq(w, "halt") {
        TokenType::Halt
    } else if str_eq(w, "pi") {
        TokenType::Pi
    } else if str_eq(w, "tau") {
        TokenType::Tau
    } else if str_eq(w, "e") {
        TokenType::E
    } else if str_eq(w, "macro") {
        TokenType::Macro
    } else if str_eq(w, "const") {
        TokenType::Const
    } else {
        TokenType::Identifier
    }
}

fn digit_run(s: &str, i: usize) -> (e: usize)
    requires
        i <= s@.len(),
        s@.len() <= usize::MAX,
    ensures
        e == digit_run_end(s@, i as int),
        i <= e <= s@.len(),
{
    let n = s.unicode_len();
    let mut e: usize = i;
    while e < n && char_is_digit(s.get_char(e))
        invariant
            i <= e <= n,
            n == s@.len(),
            digit_run_end(s@, i as int) == digit_run_end(s@, e as int),
        decreases n - e,
    {
        e = e + 1;
    }
    e
}

fn ident_run(s: &str, i: usize) -> (e: usize)
    requires
        i <= s@.len(),
        s@.len() <= usize::MAX,
    ensures
        e == ident_run_end(s@, i as int),
        i <= e <= s@.len(),
{
    let n = s.unicode_len();
    let mut e: usize = i;
    while e < n && char_is_ident(s.get_char(e))
        invariant
            i <= e <= n,
            n == s@.len(),
            ident_run_end(s@, i as int) == ident_run_end(s@, e as int),
        decreases n - e,
    {
        e = e + 1;
    }
    e
}

fn line_run(s: &str, i: usize) -> (e: usize)
    requires
        i <= s@.len(),
        s@.len() <= usize::MAX,
    ensures
        e == line_end(s@, i as int),
        i <= e <= s@.len(),
{
    let n = s.unicode_len();
    let mut e: usize = i;
    while e < n && s.get_char(e) != '\n'
        invariant
            i <= e <= n,
            n == s@.len(),
            line_end(s@, i as int) == line_end(s@, e as int),
        decreases n - e,
    {
        e = e + 1;
    }
    e
}

/// The end of a maximal numeric-literal body starting at `i`, as `lit_end`.
pub(crate) fn lit_run(s: &str, i: usize) -> (e: usize)
    requires
        i <= s@.len(),
        s@.len() <= usize::MAX,
    ensures
        e == lit_end(s@, i as int),
        i <= e <= s@.len(),
{
    let n = s.unicode_len();
    let d1 = digit_run(s, i);
    if d1 < n && s.get_char(d1) == '.' && d1 + 1 < n && char_is_digit(s.get_char(d1 + 1)) {
        digit_run(s, d1 + 1)
    } else {
        d1
    }
}

fn take_slice(s: &str, i: usize, e: usize) -> (r: String)
    requires
        i <= e <= s@.len(),
    ensures
        r@ == s@.subrange(i as int, e as int),
{
    s.substring_char(i, e).to_owned()
}

/// One scan step of the lexer, mirroring `scan_at`.
fn scan_token(s: &str, i: usize) -> (r: (Option<Token>, usize))
    requires
        i < s@.len(),
        s@.len() <= usize::MAX,
    ensures
        ({
            let sc = scan_at(s@, i as int);
            &&& r.1 == sc.next
            &&& i < r.1 <= s@.len()
            &&& match (r.0, sc.tok) {
                (Option::Some(t), Option::Some(tv)) => t@ == tv,
                (Option::None, Option::None) => true,
                _ => false,
            }
        }),
{
    proof {
        lemma_scan_at_bounds(s@, i as int);
    }
    let n = s.unicode_len();
    let c = s.get_char(i);
    if char_is_space(c) {
        (None, i + 1)
    } else if c == '/' && i + 1 < n && s.get_char(i + 1) == '/' {
        (None, line_run(s, i))
    } else if c == '{' {
        (Some(Token { ttype: TokenType::OpenBrace, slice: take_slice(s, i, i + 1) }), i + 1)
    } else if c == '}' {
        (Some(Token { ttype: TokenType::CloseBrace, slice: take_slice(s, i, i + 1) }), i + 1)
    } else if c == '=' {
        (Some(Token { ttype: TokenType::Assign, slice: take_slice(s, i, i + 1) }), i + 1)
    } else if c == '$' {
        (Some(Token { ttype: TokenType::GetSymb, slice: take_slice(s, i, i + 1) }), i + 1)
    } else if c == '*' {
        (Some(Token { ttype: TokenType::MulSymb, slice: take_slice(s, i, i + 1) }), i + 1)
    } else if c == '+' || c == '-' {
        let e = lit_run(s, i + 1);
        if e > i + 1 {
            (Some(Token { ttype: TokenType::Literal, slice: take_slice(s, i, e) }), e)
        } else if c == '+' {
            (Some(Token { ttype: TokenType::AddSymb, slice: take_slice(s, i, i + 1) }), i + 1)
        } else {
            (Some(Token { ttype: TokenType::SubSymb, slice: take_slice(s, i, i + 1) }), i + 1)
        }
    } else if char_is_digit(c) || c == '.' {
        let e = lit_run(s, i);
        if e > i {
            (Some(Token { ttype: TokenType::Literal, slice: take_slice(s, i, e) }), e)
        } else {
            (Some(Token { ttype: TokenType::Error, slice: take_slice(s, i, i + 1) }), i + 1)
        }
    } else if char_is_ident_start(c) {
        let e = ident_run(s, i + 1);
        let w = take_slice(s, i, e);
        let t = classify_word(w.as_str());
        (Some(Token { ttype: t, slice: w }), e)
    } else {
        (Some(Token { ttype: TokenType::Error, slice: take_slice(s, i, i + 1) }), i + 1)
    }
}

impl Token {
    /// Build a token from its kind and its matched text.
    pub fn new(ttype: TokenType, slice: String) -> (t: Token)
        ensures
            t.ttype == ttype,
            t.slice == slice,
    {
        Token { ttype, slice }
    }

    /// Lex the whole source text into its token sequence.
    ///
    /// Whitespace and comments (`//` to the end of the line) are skipped;
    /// anything unclassifiable becomes a single-character `Error` token.
    pub fn lex(raw: &str) -> (r: Vec<Token>)
        ensures
            r.deep_view() == lex_from(raw@, 0),
    {
        let n = raw.unicode_len();
        let mut tokens: Vec<Token> = Vec::new();
        let mut i: usize = 0;
        while i < n
            invariant
                0 <= i <= n,
            n == raw@.len(),
                lex_from(raw@, 0) == tokens.deep_view() + lex_from(raw@, i as int),
            decreases n - i,
        {
            let (tok, next) = scan_token(raw, i);
            proof {
                assert(lex_from(raw@, i as int) == match scan_at(raw@, i as int).tok {
                    Option::None => lex_from(raw@, scan_at(raw@, i as int).next),
                    Option::Some(t) => seq![t] + lex_from(raw@, scan_at(raw@, i as int).next),
                });
            }
            match tok {
                Option::None => {
                },
                Option::Some(t) => {
                    tokens.push(t);
                },
            }
            proof {
                assert(lex_from(raw@, 0) =~= tokens.deep_view() + lex_from(raw@, next as int));
            }
            i = next;
        }
        proof {
            assert(lex_from(raw@, 0) =~= tokens.deep_view());
        }
        tokens
    }
}

} // verus!
