use vstd::prelude::*;
use vstd::string::StringSliceAdditionalSpecFns;

verus! {

/// A parsed value output expression (`valueOutputs`): arithmetic over `var`.
/// Numbers are kept as the byte range of their text in the source.
#[derive(Debug)]
pub enum Expr {
    Num { start: usize, end: usize },
    Var,
    Neg(Box<Expr>),
    Add(Box<Expr>, Box<Expr>),
    Sub(Box<Expr>, Box<Expr>),
    Mul(Box<Expr>, Box<Expr>),
    /// `column` is where a division by zero is reported (1-based).
    Div(Box<Expr>, Box<Expr>, usize),
}

/// A division that the parser has completed: its divisor and the column where a
/// division by zero is reported.
#[derive(Debug)]
pub struct Division {
    pub divisor: Expr,
    pub column: usize,
}

/// What a syntax error is.
#[derive(Debug, Clone, Copy, PartialEq, Eq, Structural)]
pub enum SyntaxErrorKind {
    /// A number or `var` is needed.
    NeedNumber,
    /// A `)` is needed.
    MissingParen,
    /// Characters are left after the expression.
    Trailing,
}

/// A syntax error and its 1-based column.
#[derive(Debug, Clone, Copy, PartialEq, Eq, Structural)]
pub struct SyntaxError {
    pub kind: SyntaxErrorKind,
    pub column: usize,
}

/// A failed parse: the error, and the divisions completed before it, in the order in
/// which they were completed (a division by zero among them is reported first).
#[derive(Debug)]
pub struct ParseFailure {
    pub error: SyntaxError,
    pub divisions: Vec<Division>,
}

/// `u8::is_ascii_whitespace`.
pub open spec fn is_ascii_ws(b: u8) -> bool {
    b == 32 || b == 9 || b == 10 || b == 12 || b == 13
}

pub open spec fn is_digit(b: u8) -> bool {
    48 <= b <= 57
}

pub open spec fn is_alnum(b: u8) -> bool {
    is_digit(b) || (65 <= b <= 90) || (97 <= b <= 122)
}

pub open spec fn lower_byte(b: u8) -> u8 {
    if 65 <= b <= 90 {
        (b + 32) as u8
    } else {
        b
    }
}

/// The first position at or after `i` that holds no ASCII whitespace.
pub open spec fn skip_ws(s: Seq<u8>, i: int) -> int
    decreases s.len() - i,
{
    if 0 <= i < s.len() && is_ascii_ws(s[i]) {
        skip_ws(s, i + 1)
    } else {
        i
    }
}

pub proof fn lemma_skip_ws(s: Seq<u8>, i: int)
    requires
        0 <= i <= s.len(),
    ensures
        i <= skip_ws(s, i) <= s.len(),
        skip_ws(s, i) < s.len() ==> !is_ascii_ws(s[skip_ws(s, i)]),
    decreases s.len() - i,
{
    if i < s.len() && is_ascii_ws(s[i]) {
        lemma_skip_ws(s, i + 1);
    }
}

/// The end of the run of digits that starts at `i`.
pub open spec fn digits_end(s: Seq<u8>, i: int) -> int
    decreases s.len() - i,
{
    if 0 <= i < s.len() && is_digit(s[i]) {
        digits_end(s, i + 1)
    } else {
        i
    }
}

pub proof fn lemma_digits_end(s: Seq<u8>, i: int)
    requires
        0 <= i <= s.len(),
    ensures
        i <= digits_end(s, i) <= s.len(),
        forall|k: int| i <= k < digits_end(s, i) ==> is_digit(#[trigger] s[k]),
        digits_end(s, i) < s.len() ==> !is_digit(s[digits_end(s, i)]),
    decreases s.len() - i,
{
    if i < s.len() && is_digit(s[i]) {
        lemma_digits_end(s, i + 1);
    }
}

/// Does `var` (any ASCII case), not followed by a letter, digit or `_`, stand at `k`?
pub open spec fn var_at(s: Seq<u8>, k: int) -> bool {
    &&& 0 <= k
    &&& k + 3 <= s.len()
    &&& lower_byte(s[k]) == 118
    &&& lower_byte(s[k + 1]) == 97
    &&& lower_byte(s[k + 2]) == 114
    &&& !(k + 3 < s.len() && (is_alnum(s[k + 3]) || s[k + 3] == 95))
}

/// The outcome of parsing from some position: the expression and the position after it,
/// or a syntax error; together with the divisions completed so far.
pub type Parsed = (Result<(Expr, int), SyntaxError>, Seq<Division>);

/// A number at `k`: digits, optionally a `.` and more digits, with a digit somewhere.
pub open spec fn p_number(s: Seq<u8>, k: int, d: Seq<Division>) -> Parsed {
    let e1 = digits_end(s, k);
    let e2 = if e1 < s.len() && s[e1] == 46 {
        digits_end(s, e1 + 1)
    } else {
        e1
    };
    let has_digit = e1 > k || e2 > e1 + 1;
    if has_digit {
        (Ok((Expr::Num { start: k as usize, end: e2 as usize }, e2)), d)
    } else {
        (
            Err(SyntaxError { kind: SyntaxErrorKind::NeedNumber, column: (k + 1) as usize }),
            d,
        )
    }
}

/// `factor := ('+' | '-') factor | '(' expr ')' | var | number`, after whitespace.
pub open spec fn p_factor(s: Seq<u8>, i: int, d: Seq<Division>) -> Parsed
    decreases s.len() - i, 0int,
{
    if 0 <= i <= s.len() {
        let k = skip_ws(s, i);
        proof {
            lemma_skip_ws(s, i);
        }
        if k < s.len() && s[k] == 43 {
            p_factor(s, k + 1, d)
        } else if k < s.len() && s[k] == 45 {
            match p_factor(s, k + 1, d) {
                (Ok((f, j)), d2) => (Ok((Expr::Neg(Box::new(f)), j)), d2),
                other => other,
            }
        } else if k < s.len() && s[k] == 40 {
            match p_expr(s, k + 1, d) {
                (Ok((e, j)), d2) => {
                    let m = skip_ws(s, j);
                    if 0 <= m < s.len() && s[m] == 41 {
                        (Ok((e, m + 1)), d2)
                    } else {
                        (
                            Err(
                                SyntaxError {
                                    kind: SyntaxErrorKind::MissingParen,
                                    column: (m + 1) as usize,
                                },
                            ),
                            d2,
                        )
                    }
                },
                other => other,
            }
        } else if var_at(s, k) {
            (Ok((Expr::Var, k + 3)), d)
        } else {
            p_number(s, k, d)
        }
    } else {
        (Err(SyntaxError { kind: SyntaxErrorKind::NeedNumber, column: 0 }), d)
    }
}

/// After a term: `(('*' | '/') factor)*`.
pub open spec fn p_term_rest(s: Seq<u8>, i: int, acc: Expr, d: Seq<Division>) -> Parsed
    decreases s.len() - i, 1int,
{
    if 0 <= i <= s.len() {
        let k = skip_ws(s, i);
        proof {
            lemma_skip_ws(s, i);
        }
        if k < s.len() && (s[k] == 42 || s[k] == 47) {
            match p_factor(s, k + 1, d) {
                (Ok((f, j)), d2) => if i < j <= s.len() {
                    if s[k] == 42 {
                        p_term_rest(s, j, Expr::Mul(Box::new(acc), Box::new(f)), d2)
                    } else {
                        let col = (j + 1) as usize;
                        p_term_rest(
                            s,
                            j,
                            Expr::Div(Box::new(acc), Box::new(f), col),
                            d2.push(Division { divisor: f, column: col }),
                        )
                    }
                } else {
                    (Err(SyntaxError { kind: SyntaxErrorKind::NeedNumber, column: 0 }), d2)
                },
                other => other,
            }
        } else {
            (Ok((acc, i)), d)
        }
    } else {
        (Err(SyntaxError { kind: SyntaxErrorKind::NeedNumber, column: 0 }), d)
    }
}

/// `term := factor (('*' | '/') factor)*`.
pub open spec fn p_term(s: Seq<u8>, i: int, d: Seq<Division>) -> Parsed
    decreases s.len() - i, 2int,
{
    match p_factor(s, i, d) {
        (Ok((f, j)), d2) => if i <= j <= s.len() {
            p_term_rest(s, j, f, d2)
        } else {
            (Err(SyntaxError { kind: SyntaxErrorKind::NeedNumber, column: 0 }), d2)
        },
        other => other,
    }
}

/// After an expression's first term: `(('+' | '-') term)*`.
pub open spec fn p_expr_rest(s: Seq<u8>, i: int, acc: Expr, d: Seq<Division>) -> Parsed
    decreases s.len() - i, 3int,
{
    if 0 <= i <= s.len() {
        let k = skip_ws(s, i);
        proof {
            lemma_skip_ws(s, i);
        }
        if k < s.len() && (s[k] == 43 || s[k] == 45) {
            match p_term(s, k + 1, d) {
                (Ok((t, j)), d2) => if i < j <= s.len() {
                    if s[k] == 43 {
                        p_expr_rest(s, j, Expr::Add(Box::new(acc), Box::new(t)), d2)
                    } else {
                        p_expr_rest(s, j, Expr::Sub(Box::new(acc), Box::new(t)), d2)
                    }
                } else {
                    (Err(SyntaxError { kind: SyntaxErrorKind::NeedNumber, column: 0 }), d2)
                },
                other => other,
            }
        } else {
            (Ok((acc, i)), d)
        }
    } else {
        (Err(SyntaxError { kind: SyntaxErrorKind::NeedNumber, column: 0 }), d)
    }
}

/// `expr := term (('+' | '-') term)*`.
pub open spec fn p_expr(s: Seq<u8>, i: int, d: Seq<Division>) -> Parsed
    decreases s.len() - i, 4int,
{
    match p_term(s, i, d) {
        (Ok((t, j)), d2) => if i <= j <= s.len() {
            p_expr_rest(s, j, t, d2)
        } else {
            (Err(SyntaxError { kind: SyntaxErrorKind::NeedNumber, column: 0 }), d2)
        },
        other => other,
    }
}

/// The whole source: an expression, then only whitespace.
/// A source of `usize::MAX` bytes or more cannot be held in memory; it is refused.
pub open spec fn parse_spec(s: Seq<u8>) -> Result<Expr, (SyntaxError, Seq<Division>)> {
    if s.len() >= usize::MAX {
        Err((SyntaxError { kind: SyntaxErrorKind::Trailing, column: 0 }, Seq::<Division>::empty()))
    } else {
        parse_source(s)
    }
}

pub open spec fn parse_source(s: Seq<u8>) -> Result<Expr, (SyntaxError, Seq<Division>)> {
    match p_expr(s, 0, Seq::<Division>::empty()) {
        (Ok((e, j)), d) => {
            let k = skip_ws(s, j);
            if k < s.len() {
                Err(
                    (SyntaxError { kind: SyntaxErrorKind::Trailing, column: (k + 1) as usize }, d),
                )
            } else {
                Ok(e)
            }
        },
        (Err(err), d) => Err((err, d)),
    }
}


fn skip_whitespace(s: &[u8], i: usize) -> (r: usize)
    requires
        i <= s@.len(),
    ensures
        r as int == skip_ws(s@, i as int),
        i <= r <= s@.len(),
{
    let mut k = i;
    while k < s.len() && (s[k] == 32 || s[k] == 9 || s[k] == 10 || s[k] == 12 || s[k] == 13)
        invariant
            i <= k <= s@.len(),
            skip_ws(s@, i as int) == skip_ws(s@, k as int),
        decreases s@.len() - k,
    {
        k = k + 1;
    }
    k
}

fn skip_digits(s: &[u8], i: usize) -> (r: usize)
    requires
        i <= s@.len(),
    ensures
        r as int == digits_end(s@, i as int),
        i <= r <= s@.len(),
{
    let mut k = i;
    while k < s.len() && 48 <= s[k] && s[k] <= 57
        invariant
            i <= k <= s@.len(),
            digits_end(s@, i as int) == digits_end(s@, k as int),
        decreases s@.len() - k,
    {
        k = k + 1;
    }
    k
}

fn lower(b: u8) -> (r: u8)
    ensures
        r == lower_byte(b),
{
    if 65 <= b && b <= 90 {
        b + 32
    } else {
        b
    }
}

/// Whether the keyword `var` stands at `k`.
fn var_here(s: &[u8], k: usize) -> (r: bool)
    requires
        k <= s@.len(),
    ensures
        r == var_at(s@, k as int),
{
    if s.len() - k < 3 {
        return false;
    }
    if lower(s[k]) != 118 || lower(s[k + 1]) != 97 || lower(s[k + 2]) != 114 {
        return false;
    }
    if k + 3 < s.len() {
        let n = s[k + 3];
        let alnum = (48 <= n && n <= 57) || (65 <= n && n <= 90) || (97 <= n && n <= 122);
        if alnum || n == 95 {
            return false;
        }
    }
    true
}

/// The result of a parse step, compared with the specification.
pub open spec fn same_outcome(
    r: Result<(Expr, usize), SyntaxError>,
    spec: Parsed,
    d: Seq<Division>,
    i: int,
    n: int,
) -> bool {
    match r {
        Ok((e, j)) => spec == (Ok::<(Expr, int), SyntaxError>((e, j as int)), d) && i < j <= n,
        Err(err) => spec == (Err::<(Expr, int), SyntaxError>(err), d),
    }
}

fn parse_number(s: &[u8], k: usize) -> (r: Result<(Expr, usize), SyntaxError>)
    requires
        s@.len() < usize::MAX,
        k <= s@.len(),
    ensures
        forall|d: Seq<Division>| same_outcome(r, p_number(s@, k as int, d), d, k as int, s@.len() as int),
{
    let e1 = skip_digits(s, k);
    let e2 = if e1 < s.len() && s[e1] == 46 {
        skip_digits(s, e1 + 1)
    } else {
        e1
    };
    if e1 > k || e2 > e1 + 1 {
        Ok((Expr::Num { start: k, end: e2 }, e2))
    } else {
        Err(SyntaxError { kind: SyntaxErrorKind::NeedNumber, column: k + 1 })
    }
}

fn parse_factor(s: &[u8], i: usize, d: &mut Vec<Division>) -> (r: Result<(Expr, usize), SyntaxError>)
    requires
        s@.len() < usize::MAX,
        i <= s@.len(),
    ensures
        same_outcome(r, p_factor(s@, i as int, old(d)@), final(d)@, i as int, s@.len() as int),
    decreases s@.len() - i, 0int,
{
    let k = skip_whitespace(s, i);
    if k < s.len() && s[k] == 43 {
        return parse_factor(s, k + 1, d);
    }
    if k < s.len() && s[k] == 45 {
        return match parse_factor(s, k + 1, d) {
            Ok((f, j)) => Ok((Expr::Neg(Box::new(f)), j)),
            Err(e) => Err(e),
        };
    }
    if k < s.len() && s[k] == 40 {
        return match parse_expression(s, k + 1, d) {
            Ok((e, j)) => {
                let m = skip_whitespace(s, j);
                if m < s.len() && s[m] == 41 {
                    Ok((e, m + 1))
                } else {
                    Err(SyntaxError { kind: SyntaxErrorKind::MissingParen, column: m + 1 })
                }
            },
            Err(e) => Err(e),
        };
    }
    if var_here(s, k) {
        return Ok((Expr::Var, k + 3));
    }
    parse_number(s, k)
}

fn parse_term(s: &[u8], i: usize, d: &mut Vec<Division>) -> (r: Result<(Expr, usize), SyntaxError>)
    requires
        s@.len() < usize::MAX,
        i <= s@.len(),
    ensures
        same_outcome(r, p_term(s@, i as int, old(d)@), final(d)@, i as int, s@.len() as int),
    decreases s@.len() - i, 2int,
{
    let (first, j0) = match parse_factor(s, i, d) {
        Ok(p) => p,
        Err(e) => {
            return Err(e);
        },
    };
    let mut acc = first;
    let mut j = j0;
    let ghost d0 = d@;
    loop
        invariant
            s@.len() < usize::MAX,
            i < j <= s@.len(),
            p_term(s@, i as int, old(d)@) == p_term_rest(s@, j as int, acc, d@),
        decreases s@.len() - j,
    {
        let k = skip_whitespace(s, j);
        if k < s.len() && (s[k] == 42 || s[k] == 47) {
            let is_mul = s[k] == 42;
            match parse_factor(s, k + 1, d) {
                Ok((f, j2)) => {
                    if is_mul {
                        acc = Expr::Mul(Box::new(acc), Box::new(f));
                    } else {
                        let col = j2 + 1;
                        let divisor_copy = copy_expr(&f);
                        d.push(Division { divisor: divisor_copy, column: col });
                        acc = Expr::Div(Box::new(acc), Box::new(f), col);
                    }
                    j = j2;
                },
                Err(e) => {
                    return Err(e);
                },
            }
        } else {
            return Ok((acc, j));
        }
    }
}

fn parse_expression(s: &[u8], i: usize, d: &mut Vec<Division>) -> (r: Result<
    (Expr, usize),
    SyntaxError,
>)
    requires
        s@.len() < usize::MAX,
        i <= s@.len(),
    ensures
        same_outcome(r, p_expr(s@, i as int, old(d)@), final(d)@, i as int, s@.len() as int),
    decreases s@.len() - i, 4int,
{
    let (first, j0) = match parse_term(s, i, d) {
        Ok(p) => p,
        Err(e) => {
            return Err(e);
        },
    };
    let mut acc = first;
    let mut j = j0;
    loop
        invariant
            s@.len() < usize::MAX,
            i < j <= s@.len(),
            p_expr(s@, i as int, old(d)@) == p_expr_rest(s@, j as int, acc, d@),
        decreases s@.len() - j,
    {
        let k = skip_whitespace(s, j);
        if k < s.len() && (s[k] == 43 || s[k] == 45) {
            let is_add = s[k] == 43;
            match parse_term(s, k + 1, d) {
                Ok((t, j2)) => {
                    if is_add {
                        acc = Expr::Add(Box::new(acc), Box::new(t));
                    } else {
                        acc = Expr::Sub(Box::new(acc), Box::new(t));
                    }
                    j = j2;
                },
                Err(e) => {
                    return Err(e);
                },
            }
        } else {
            return Ok((acc, j));
        }
    }
}

/// A copy of an expression.
pub fn copy_expr(e: &Expr) -> (r: Expr)
    ensures
        r == *e,
    decreases e,
{
    match e {
        Expr::Num { start, end } => Expr::Num { start: *start, end: *end },
        Expr::Var => Expr::Var,
        Expr::Neg(a) => Expr::Neg(Box::new(copy_expr(a))),
        Expr::Add(a, b) => Expr::Add(Box::new(copy_expr(a)), Box::new(copy_expr(b))),
        Expr::Sub(a, b) => Expr::Sub(Box::new(copy_expr(a)), Box::new(copy_expr(b))),
        Expr::Mul(a, b) => Expr::Mul(Box::new(copy_expr(a)), Box::new(copy_expr(b))),
        Expr::Div(a, b, c) => Expr::Div(Box::new(copy_expr(a)), Box::new(copy_expr(b)), *c),
    }
}

/// A parser of value output expressions (`valueOutputs`): `+ - * /`, parentheses,
/// unary signs, decimal numbers and `var`, with ASCII whitespace between tokens.
pub struct ValueOutputParser {
    bytes: Vec<u8>,
}

impl ValueOutputParser {
    /// The bytes that the parser reads.
    pub closed spec fn source(&self) -> Seq<u8> {
        self.bytes@
    }

    pub fn new(expr: &str) -> (p: Self)
        ensures
            p.source() == expr.spec_bytes(),
    {
        let b = expr.as_bytes();
        let mut bytes: Vec<u8> = Vec::new();
        let mut i: usize = 0;
        while i < b.len()
            invariant
                i <= b@.len(),
                bytes@ == b@.take(i as int),
            decreases b@.len() - i,
        {
            bytes.push(b[i]);
            i = i + 1;
            assert(bytes@ =~= b@.take(i as int));
        }
        assert(b@.take(i as int) =~= b@);
        ValueOutputParser { bytes }
    }

    /// Parses the whole source. On failure the divisions completed before the error
    /// are handed back, in order.
    pub fn parse(self) -> (r: Result<Expr, ParseFailure>)
        ensures
            match r {
                Ok(e) => parse_spec(self.source()) == Ok::<Expr, (SyntaxError, Seq<Division>)>(e),
                Err(f) => parse_spec(self.source()) == Err::<Expr, (SyntaxError, Seq<Division>)>(
                    (f.error, f.divisions@),
                ),
            },
    {
        let s = self.bytes.as_slice();
        let mut d: Vec<Division> = Vec::new();
        if s.len() == usize::MAX {
            return Err(
                ParseFailure {
                    error: SyntaxError { kind: SyntaxErrorKind::Trailing, column: 0 },
                    divisions: d,
                },
            );
        }
        match parse_expression(s, 0, &mut d) {
            Ok((e, j)) => {
                let k = skip_whitespace(s, j);
                if k < s.len() {
                    Err(
                        ParseFailure {
                            error: SyntaxError { kind: SyntaxErrorKind::Trailing, column: k + 1 },
                            divisions: d,
                        },
                    )
                } else {
                    Ok(e)
                }
            },
            Err(err) => Err(ParseFailure { error: err, divisions: d }),
        }
    }
}

/// Parses a value output expression (see `ValueOutputParser`).
pub fn parse_value_output(expr: &str) -> (r: Result<Expr, ParseFailure>)
    ensures
        match r {
            Ok(e) => parse_spec(expr.spec_bytes()) == Ok::<Expr, (SyntaxError, Seq<Division>)>(e),
            Err(f) => parse_spec(expr.spec_bytes()) == Err::<Expr, (SyntaxError, Seq<Division>)>(
                (f.error, f.divisions@),
            ),
        },
{
    ValueOutputParser::new(expr).parse()
}

// ----- operators in the source and in the parse -----------------------------

/// `+`, `-`, `*` or `/`.
pub open spec fn is_op(b: u8) -> bool {
    b == 43 || b == 45 || b == 42 || b == 47
}

/// The operator bytes of a text, in order.
pub open spec fn ops_in(s: Seq<u8>) -> Seq<u8>
    decreases s.len(),
{
    if s.len() == 0 {
        Seq::empty()
    } else if is_op(s[0]) {
        seq![s[0]] + ops_in(s.drop_first())
    } else {
        ops_in(s.drop_first())
    }
}

/// The operators of an expression, read left to right: `-` for a negation
/// (before its operand), and the operator of each binary node between its
/// operands.
pub open spec fn ops_of(e: Expr) -> Seq<u8>
    decreases e,
{
    match e {
        Expr::Num { .. } => Seq::empty(),
        Expr::Var => Seq::empty(),
        Expr::Neg(a) => seq![45u8] + ops_of(*a),
        Expr::Add(a, b) => ops_of(*a) + seq![43u8] + ops_of(*b),
        Expr::Sub(a, b) => ops_of(*a) + seq![45u8] + ops_of(*b),
        Expr::Mul(a, b) => ops_of(*a) + seq![42u8] + ops_of(*b),
        Expr::Div(a, b, _) => ops_of(*a) + seq![47u8] + ops_of(*b),
    }
}

/// `y` is `x` with some of its `+` left out.
pub open spec fn drops_pluses(x: Seq<u8>, y: Seq<u8>) -> bool
    decreases x.len(),
{
    if x.len() == 0 {
        y.len() == 0
    } else if x[0] == 43 && drops_pluses(x.drop_first(), y) {
        true
    } else {
        y.len() > 0 && y[0] == x[0] && drops_pluses(x.drop_first(), y.drop_first())
    }
}

proof fn lemma_ops_in_concat(a: Seq<u8>, b: Seq<u8>)
    ensures
        ops_in(a + b) == ops_in(a) + ops_in(b),
    decreases a.len(),
{
    if a.len() == 0 {
        assert(a + b =~= b);
    } else {
        assert((a + b).drop_first() =~= a.drop_first() + b);
        lemma_ops_in_concat(a.drop_first(), b);
    }
}

proof fn lemma_ops_in_split(s: Seq<u8>, i: int, k: int, j: int)
    requires
        0 <= i <= k <= j <= s.len(),
    ensures
        ops_in(s.subrange(i, j)) == ops_in(s.subrange(i, k)) + ops_in(s.subrange(k, j)),
{
    assert(s.subrange(i, j) =~= s.subrange(i, k) + s.subrange(k, j));
    lemma_ops_in_concat(s.subrange(i, k), s.subrange(k, j));
}

proof fn lemma_ops_in_none(s: Seq<u8>, i: int, j: int)
    requires
        0 <= i <= j <= s.len(),
        forall|t: int| i <= t < j ==> !is_op(#[trigger] s[t]),
    ensures
        ops_in(s.subrange(i, j)) == Seq::<u8>::empty(),
    decreases j - i,
{
    if i < j {
        assert(s.subrange(i, j).drop_first() =~= s.subrange(i + 1, j));
        lemma_ops_in_none(s, i + 1, j);
    }
}

proof fn lemma_ops_in_one(s: Seq<u8>, k: int)
    requires
        0 <= k < s.len(),
        is_op(s[k]),
    ensures
        ops_in(s.subrange(k, k + 1)) == seq![s[k]],
{
    let w = s.subrange(k, k + 1);
    assert(w.drop_first() =~= Seq::<u8>::empty());
    assert(ops_in(Seq::<u8>::empty()) == Seq::<u8>::empty());
    assert(w[0] == s[k]);
    assert(ops_in(w) =~= seq![s[k]]);
}

proof fn lemma_skip_ws_all(s: Seq<u8>, i: int)
    requires
        0 <= i <= s.len(),
    ensures
        forall|t: int| i <= t < skip_ws(s, i) ==> is_ascii_ws(#[trigger] s[t]),
    decreases s.len() - i,
{
    if i < s.len() && is_ascii_ws(s[i]) {
        lemma_skip_ws_all(s, i + 1);
    }
}

/// No operator lies between `i` and the first non-blank position after it.
proof fn lemma_ws_no_ops(s: Seq<u8>, i: int)
    requires
        0 <= i <= s.len(),
    ensures
        i <= skip_ws(s, i) <= s.len(),
        ops_in(s.subrange(i, skip_ws(s, i))) == Seq::<u8>::empty(),
{
    lemma_skip_ws(s, i);
    lemma_skip_ws_all(s, i);
    lemma_ops_in_none(s, i, skip_ws(s, i));
}

proof fn lemma_drops_empty()
    ensures
        drops_pluses(Seq::<u8>::empty(), Seq::<u8>::empty()),
{
}

proof fn lemma_drops_one(o: u8)
    ensures
        drops_pluses(seq![o], seq![o]),
{
    let x = seq![o];
    assert(x.drop_first() =~= Seq::<u8>::empty());
    assert(drops_pluses(Seq::<u8>::empty(), Seq::<u8>::empty()));
    assert(!drops_pluses(Seq::<u8>::empty(), x));
    assert(drops_pluses(x.drop_first(), x.drop_first()));
}

proof fn lemma_drops_concat(a: Seq<u8>, b: Seq<u8>, c: Seq<u8>, d: Seq<u8>)
    requires
        drops_pluses(a, b),
        drops_pluses(c, d),
    ensures
        drops_pluses(a + c, b + d),
    decreases a.len(),
{
    if a.len() == 0 {
        assert(b.len() == 0);
        assert(a + c =~= c);
        assert(b + d =~= d);
    } else {
        assert((a + c).drop_first() =~= a.drop_first() + c);
        if a[0] == 43 && drops_pluses(a.drop_first(), b) {
            lemma_drops_concat(a.drop_first(), b, c, d);
        } else {
            assert((b + d).drop_first() =~= b.drop_first() + d);
            lemma_drops_concat(a.drop_first(), b.drop_first(), c, d);
        }
    }
}

proof fn lemma_drops_plus_prefix(x: Seq<u8>, y: Seq<u8>)
    requires
        drops_pluses(x, y),
    ensures
        drops_pluses(seq![43u8] + x, y),
{
    assert((seq![43u8] + x).drop_first() =~= x);
}

/// What a parse from `i` to `j` keeps of the operators between them.
pub open spec fn parsed_fits(s: Seq<u8>, i: int, r: Parsed) -> bool {
    r.0 matches Ok((e, j)) ==> i <= j <= s.len() && drops_pluses(
        ops_in(s.subrange(i, j)),
        ops_of(e),
    )
}

/// What a parse that continues `acc` from `i` keeps: the operators before `i`
/// that gave `acc`, then those up to the end.
pub open spec fn rest_fits(s: Seq<u8>, i: int, x: Seq<u8>, r: Parsed) -> bool {
    r.0 matches Ok((e, j)) ==> i <= j <= s.len() && drops_pluses(
        x + ops_in(s.subrange(i, j)),
        ops_of(e),
    )
}

proof fn lemma_p_number(s: Seq<u8>, k: int, d: Seq<Division>)
    requires
        0 <= k <= s.len(),
    ensures
        parsed_fits(s, k, p_number(s, k, d)),
{
    let e1 = digits_end(s, k);
    lemma_digits_end(s, k);
    if e1 < s.len() && s[e1] == 46 {
        lemma_digits_end(s, e1 + 1);
        let e2 = digits_end(s, e1 + 1);
        assert forall|t: int| k <= t < e2 implies !is_op(#[trigger] s[t]) by {
            if t < e1 {
                assert(is_digit(s[t]));
            } else if t > e1 {
                assert(is_digit(s[t]));
            }
        }
        lemma_ops_in_none(s, k, e2);
    } else {
        assert forall|t: int| k <= t < e1 implies !is_op(#[trigger] s[t]) by {
            assert(is_digit(s[t]));
        }
        lemma_ops_in_none(s, k, e1);
    }
}

proof fn lemma_p_factor(s: Seq<u8>, i: int, d: Seq<Division>)
    requires
        0 <= i <= s.len(),
    ensures
        parsed_fits(s, i, p_factor(s, i, d)),
    decreases s.len() - i, 0int,
{
    let k = skip_ws(s, i);
    lemma_ws_no_ops(s, i);
    if k < s.len() && (s[k] == 43 || s[k] == 45) {
        lemma_p_factor(s, k + 1, d);
        match p_factor(s, k + 1, d) {
            (Ok((f, j)), _) => {
                lemma_ops_in_split(s, i, k, j);
                lemma_ops_in_split(s, k, k + 1, j);
                lemma_ops_in_one(s, k);
                let x = ops_in(s.subrange(k + 1, j));
                assert(ops_in(s.subrange(i, j)) =~= seq![s[k]] + x);
                if s[k] == 43 {
                    lemma_drops_plus_prefix(x, ops_of(f));
                } else {
                    lemma_drops_one(45);
                    lemma_drops_concat(seq![45u8], seq![45u8], x, ops_of(f));
                    assert(ops_of(Expr::Neg(Box::new(f))) == seq![45u8] + ops_of(f));
                }
            },
            _ => {},
        }
    } else if k < s.len() && s[k] == 40 {
        lemma_p_expr(s, k + 1, d);
        match p_expr(s, k + 1, d) {
            (Ok((e, j)), _) => {
                let m = skip_ws(s, j);
                lemma_ws_no_ops(s, j);
                if 0 <= m < s.len() && s[m] == 41 {
                    lemma_ops_in_split(s, i, k, m + 1);
                    lemma_ops_in_split(s, k, k + 1, m + 1);
                    lemma_ops_in_split(s, k + 1, j, m + 1);
                    lemma_ops_in_split(s, j, m, m + 1);
                    lemma_ops_in_none(s, k, k + 1);
                    lemma_ops_in_none(s, m, m + 1);
                    assert(ops_in(s.subrange(i, m + 1)) =~= ops_in(s.subrange(k + 1, j)));
                }
            },
            _ => {},
        }
    } else if var_at(s, k) {
        assert forall|t: int| k <= t < k + 3 implies !is_op(#[trigger] s[t]) by {
            assert(lower_byte(s[t]) == 118 || lower_byte(s[t]) == 97 || lower_byte(s[t]) == 114);
        }
        lemma_ops_in_split(s, i, k, k + 3);
        lemma_ops_in_none(s, k, k + 3);
    } else {
        lemma_p_number(s, k, d);
        match p_number(s, k, d) {
            (Ok((_, j)), _) => {
                lemma_ops_in_split(s, i, k, j);
            },
            _ => {},
        }
    }
}

proof fn lemma_p_term_rest(s: Seq<u8>, i: int, acc: Expr, d: Seq<Division>, x: Seq<u8>)
    requires
        0 <= i <= s.len(),
        drops_pluses(x, ops_of(acc)),
    ensures
        rest_fits(s, i, x, p_term_rest(s, i, acc, d)),
    decreases s.len() - i, 1int,
{
    let k = skip_ws(s, i);
    lemma_ws_no_ops(s, i);
    if k < s.len() && (s[k] == 42 || s[k] == 47) {
        lemma_p_factor(s, k + 1, d);
        match p_factor(s, k + 1, d) {
            (Ok((f, j1)), d2) => if i < j1 <= s.len() {
                lemma_ops_in_split(s, i, k, j1);
                lemma_ops_in_split(s, k, k + 1, j1);
                lemma_ops_in_one(s, k);
                let y = ops_in(s.subrange(k + 1, j1));
                assert(ops_in(s.subrange(i, j1)) =~= seq![s[k]] + y);
                lemma_drops_one(s[k]);
                lemma_drops_concat(x, ops_of(acc), seq![s[k]], seq![s[k]]);
                lemma_drops_concat(x + seq![s[k]], ops_of(acc) + seq![s[k]], y, ops_of(f));
                let x2 = x + ops_in(s.subrange(i, j1));
                assert(x2 =~= x + seq![s[k]] + y);
                let next = if s[k] == 42 {
                    Expr::Mul(Box::new(acc), Box::new(f))
                } else {
                    Expr::Div(Box::new(acc), Box::new(f), (j1 + 1) as usize)
                };
                assert(ops_of(next) == ops_of(acc) + seq![s[k]] + ops_of(f));
                let d3 = if s[k] == 42 {
                    d2
                } else {
                    d2.push(Division { divisor: f, column: (j1 + 1) as usize })
                };
                lemma_p_term_rest(s, j1, next, d3, x2);
                match p_term_rest(s, j1, next, d3) {
                    (Ok((_, j)), _) => {
                        lemma_ops_in_split(s, i, j1, j);
                        assert(x2 + ops_in(s.subrange(j1, j)) =~= x + ops_in(s.subrange(i, j)));
                    },
                    _ => {},
                }
            },
            _ => {},
        }
    } else {
        assert(s.subrange(i, i) =~= Seq::<u8>::empty());
        assert(x + ops_in(s.subrange(i, i)) =~= x);
    }
}

proof fn lemma_p_term(s: Seq<u8>, i: int, d: Seq<Division>)
    requires
        0 <= i <= s.len(),
    ensures
        parsed_fits(s, i, p_term(s, i, d)),
    decreases s.len() - i, 2int,
{
    lemma_p_factor(s, i, d);
    match p_factor(s, i, d) {
        (Ok((f, j1)), d2) => if i <= j1 <= s.len() {
            let x = ops_in(s.subrange(i, j1));
            lemma_p_term_rest(s, j1, f, d2, x);
            match p_term_rest(s, j1, f, d2) {
                (Ok((_, j)), _) => {
                    lemma_ops_in_split(s, i, j1, j);
                },
                _ => {},
            }
        },
        _ => {},
    }
}

proof fn lemma_p_expr_rest(s: Seq<u8>, i: int, acc: Expr, d: Seq<Division>, x: Seq<u8>)
    requires
        0 <= i <= s.len(),
        drops_pluses(x, ops_of(acc)),
    ensures
        rest_fits(s, i, x, p_expr_rest(s, i, acc, d)),
    decreases s.len() - i, 3int,
{
    let k = skip_ws(s, i);
    lemma_ws_no_ops(s, i);
    if k < s.len() && (s[k] == 43 || s[k] == 45) {
        lemma_p_term(s, k + 1, d);
        match p_term(s, k + 1, d) {
            (Ok((t, j1)), d2) => if i < j1 <= s.len() {
                lemma_ops_in_split(s, i, k, j1);
                lemma_ops_in_split(s, k, k + 1, j1);
                lemma_ops_in_one(s, k);
                let y = ops_in(s.subrange(k + 1, j1));
                assert(ops_in(s.subrange(i, j1)) =~= seq![s[k]] + y);
                lemma_drops_one(s[k]);
                lemma_drops_concat(x, ops_of(acc), seq![s[k]], seq![s[k]]);
                lemma_drops_concat(x + seq![s[k]], ops_of(acc) + seq![s[k]], y, ops_of(t));
                let x2 = x + ops_in(s.subrange(i, j1));
                assert(x2 =~= x + seq![s[k]] + y);
                let next = if s[k] == 43 {
                    Expr::Add(Box::new(acc), Box::new(t))
                } else {
                    Expr::Sub(Box::new(acc), Box::new(t))
                };
                assert(ops_of(next) == ops_of(acc) + seq![s[k]] + ops_of(t));
                lemma_p_expr_rest(s, j1, next, d2, x2);
                match p_expr_rest(s, j1, next, d2) {
                    (Ok((_, j)), _) => {
                        lemma_ops_in_split(s, i, j1, j);
                        assert(x2 + ops_in(s.subrange(j1, j)) =~= x + ops_in(s.subrange(i, j)));
                    },
                    _ => {},
                }
            },
            _ => {},
        }
    } else {
        assert(s.subrange(i, i) =~= Seq::<u8>::empty());
        assert(x + ops_in(s.subrange(i, i)) =~= x);
    }
}

proof fn lemma_p_expr(s: Seq<u8>, i: int, d: Seq<Division>)
    requires
        0 <= i <= s.len(),
    ensures
        parsed_fits(s, i, p_expr(s, i, d)),
    decreases s.len() - i, 4int,
{
    lemma_p_term(s, i, d);
    match p_term(s, i, d) {
        (Ok((t, j1)), d2) => if i <= j1 <= s.len() {
            let x = ops_in(s.subrange(i, j1));
            lemma_p_expr_rest(s, j1, t, d2, x);
            match p_expr_rest(s, j1, t, d2) {
                (Ok((_, j)), _) => {
                    lemma_ops_in_split(s, i, j1, j);
                },
                _ => {},
            }
        },
        _ => {},
    }
}

/// Law: the operators of a parsed value output are those of its text, in the
/// same order, each `-` either a subtraction or a negation, each `+` an addition
/// (a unary `+` gives no node), each `*` a multiplication and each `/` a
/// division. So `var - 1` parses to a subtraction, never to an addition, and
/// `a + b` never to a subtraction.
pub proof fn law_parse_keeps_operators(s: Seq<u8>)
    ensures
        parse_spec(s) matches Ok(e) ==> drops_pluses(ops_in(s), ops_of(e)),
{
    if s.len() < usize::MAX {
        lemma_p_expr(s, 0, Seq::<Division>::empty());
        match p_expr(s, 0, Seq::<Division>::empty()) {
            (Ok((e, j)), _) => {
                let k = skip_ws(s, j);
                lemma_ws_no_ops(s, j);
                if k >= s.len() {
                    lemma_ops_in_split(s, 0, j, s.len() as int);
                    assert(s.subrange(0, s.len() as int) =~= s);
                    assert(ops_in(s.subrange(0, j)) + ops_in(s.subrange(j, s.len() as int)) =~= ops_in(
                        s.subrange(0, j),
                    ));
                }
            },
            _ => {},
        }
    }
}

/// The numbers of an expression, read left to right, as byte ranges.
pub open spec fn nums_of(e: Expr) -> Seq<(int, int)>
    decreases e,
{
    match e {
        Expr::Num { start, end } => seq![(start as int, end as int)],
        Expr::Var => Seq::empty(),
        Expr::Neg(a) => nums_of(*a),
        Expr::Add(a, b) => nums_of(*a) + nums_of(*b),
        Expr::Sub(a, b) => nums_of(*a) + nums_of(*b),
        Expr::Mul(a, b) => nums_of(*a) + nums_of(*b),
        Expr::Div(a, b, _) => nums_of(*a) + nums_of(*b),
    }
}

/// Ranges that lie between `lo` and `hi`, are not empty, and follow each other.
pub open spec fn ranges_in_order(ns: Seq<(int, int)>, lo: int, hi: int) -> bool {
    &&& forall|k: int| 0 <= k < ns.len() ==> lo <= (#[trigger] ns[k]).0 < ns[k].1 <= hi
    &&& forall|k: int, l: int| 0 <= k < l < ns.len() ==> (#[trigger] ns[k]).1 <= (#[trigger] ns[l]).0
}

proof fn lemma_ranges_concat(a: Seq<(int, int)>, b: Seq<(int, int)>, lo: int, m: int, hi: int)
    requires
        lo <= m <= hi,
        ranges_in_order(a, lo, m),
        ranges_in_order(b, m, hi),
    ensures
        ranges_in_order(a + b, lo, hi),
{
    let c = a + b;
    assert forall|k: int| 0 <= k < c.len() implies lo <= (#[trigger] c[k]).0 < c[k].1 <= hi by {
        if k < a.len() {
            assert(c[k] == a[k]);
        } else {
            assert(c[k] == b[k - a.len()]);
        }
    }
    assert forall|k: int, l: int| 0 <= k < l < c.len() implies (#[trigger] c[k]).1 <= (
    #[trigger] c[l]).0 by {
        if l < a.len() {
            assert(c[k] == a[k] && c[l] == a[l]);
        } else if k >= a.len() {
            assert(c[k] == b[k - a.len()] && c[l] == b[l - a.len()]);
        } else {
            assert(c[k] == a[k] && c[l] == b[l - a.len()]);
        }
    }
}

proof fn lemma_ranges_widen(a: Seq<(int, int)>, lo: int, hi: int, lo2: int, hi2: int)
    requires
        ranges_in_order(a, lo, hi),
        lo2 <= lo,
        hi <= hi2,
    ensures
        ranges_in_order(a, lo2, hi2),
{
}

pub open spec fn parsed_ranges(s: Seq<u8>, i: int, r: Parsed) -> bool {
    r.0 matches Ok((e, j)) ==> i <= j <= s.len() && ranges_in_order(nums_of(e), i, j)
}

pub open spec fn rest_ranges(s: Seq<u8>, lo: int, r: Parsed) -> bool {
    r.0 matches Ok((e, j)) ==> j <= s.len() && ranges_in_order(nums_of(e), lo, j)
}

proof fn lemma_n_factor(s: Seq<u8>, i: int, d: Seq<Division>)
    requires
        0 <= i <= s.len(),
        s.len() < usize::MAX,
    ensures
        parsed_ranges(s, i, p_factor(s, i, d)),
    decreases s.len() - i, 0int,
{
    let k = skip_ws(s, i);
    lemma_skip_ws(s, i);
    if k < s.len() && (s[k] == 43 || s[k] == 45) {
        lemma_n_factor(s, k + 1, d);
        match p_factor(s, k + 1, d) {
            (Ok((f, j)), _) => {
                lemma_ranges_widen(nums_of(f), k + 1, j, i, j);
                assert(nums_of(Expr::Neg(Box::new(f))) == nums_of(f));
            },
            _ => {},
        }
    } else if k < s.len() && s[k] == 40 {
        lemma_n_expr(s, k + 1, d);
        match p_expr(s, k + 1, d) {
            (Ok((e, j)), _) => {
                let m = skip_ws(s, j);
                lemma_skip_ws(s, j);
                lemma_ranges_widen(nums_of(e), k + 1, j, i, m + 1);
            },
            _ => {},
        }
    } else if var_at(s, k) {
    } else {
        let e1 = digits_end(s, k);
        lemma_digits_end(s, k);
        if e1 < s.len() && s[e1] == 46 {
            lemma_digits_end(s, e1 + 1);
        }
    }
}

proof fn lemma_n_term_rest(s: Seq<u8>, i: int, acc: Expr, d: Seq<Division>, lo: int)
    requires
        0 <= lo <= i <= s.len(),
        s.len() < usize::MAX,
        ranges_in_order(nums_of(acc), lo, i),
    ensures
        rest_ranges(s, lo, p_term_rest(s, i, acc, d)),
    decreases s.len() - i, 1int,
{
    let k = skip_ws(s, i);
    lemma_skip_ws(s, i);
    if k < s.len() && (s[k] == 42 || s[k] == 47) {
        lemma_n_factor(s, k + 1, d);
        match p_factor(s, k + 1, d) {
            (Ok((f, j1)), d2) => if i < j1 <= s.len() {
                lemma_ranges_widen(nums_of(f), k + 1, j1, i, j1);
                lemma_ranges_concat(nums_of(acc), nums_of(f), lo, i, j1);
                let next = if s[k] == 42 {
                    Expr::Mul(Box::new(acc), Box::new(f))
                } else {
                    Expr::Div(Box::new(acc), Box::new(f), (j1 + 1) as usize)
                };
                assert(nums_of(next) == nums_of(acc) + nums_of(f));
                let d3 = if s[k] == 42 {
                    d2
                } else {
                    d2.push(Division { divisor: f, column: (j1 + 1) as usize })
                };
                lemma_n_term_rest(s, j1, next, d3, lo);
            },
            _ => {},
        }
    }
}

proof fn lemma_n_term(s: Seq<u8>, i: int, d: Seq<Division>)
    requires
        0 <= i <= s.len(),
        s.len() < usize::MAX,
    ensures
        parsed_ranges(s, i, p_term(s, i, d)),
    decreases s.len() - i, 2int,
{
    lemma_n_factor(s, i, d);
    match p_factor(s, i, d) {
        (Ok((f, j1)), d2) => if i <= j1 <= s.len() {
            lemma_n_term_rest(s, j1, f, d2, i);
            match p_term_rest(s, j1, f, d2) {
                (Ok((_, j)), _) => {
                    lemma_n_term_rest_end(s, j1, f, d2);
                },
                _ => {},
            }
        },
        _ => {},
    }
}

/// A continued parse never ends before it starts.
proof fn lemma_n_term_rest_end(s: Seq<u8>, i: int, acc: Expr, d: Seq<Division>)
    requires
        0 <= i <= s.len(),
    ensures
        p_term_rest(s, i, acc, d).0 matches Ok((_, j)) ==> i <= j,
    decreases s.len() - i,
{
    let k = skip_ws(s, i);
    lemma_skip_ws(s, i);
    if k < s.len() && (s[k] == 42 || s[k] == 47) {
        match p_factor(s, k + 1, d) {
            (Ok((f, j1)), d2) => if i < j1 <= s.len() {
                let next = if s[k] == 42 {
                    Expr::Mul(Box::new(acc), Box::new(f))
                } else {
                    Expr::Div(Box::new(acc), Box::new(f), (j1 + 1) as usize)
                };
                let d3 = if s[k] == 42 {
                    d2
                } else {
                    d2.push(Division { divisor: f, column: (j1 + 1) as usize })
                };
                lemma_n_term_rest_end(s, j1, next, d3);
            },
            _ => {},
        }
    }
}

proof fn lemma_n_expr_rest_end(s: Seq<u8>, i: int, acc: Expr, d: Seq<Division>)
    requires
        0 <= i <= s.len(),
    ensures
        p_expr_rest(s, i, acc, d).0 matches Ok((_, j)) ==> i <= j,
    decreases s.len() - i,
{
    let k = skip_ws(s, i);
    lemma_skip_ws(s, i);
    if k < s.len() && (s[k] == 43 || s[k] == 45) {
        match p_term(s, k + 1, d) {
            (Ok((t, j1)), d2) => if i < j1 <= s.len() {
                let next = if s[k] == 43 {
                    Expr::Add(Box::new(acc), Box::new(t))
                } else {
                    Expr::Sub(Box::new(acc), Box::new(t))
                };
                lemma_n_expr_rest_end(s, j1, next, d2);
            },
            _ => {},
        }
    }
}

proof fn lemma_n_expr_rest(s: Seq<u8>, i: int, acc: Expr, d: Seq<Division>, lo: int)
    requires
        0 <= lo <= i <= s.len(),
        s.len() < usize::MAX,
        ranges_in_order(nums_of(acc), lo, i),
    ensures
        rest_ranges(s, lo, p_expr_rest(s, i, acc, d)),
    decreases s.len() - i, 3int,
{
    let k = skip_ws(s, i);
    lemma_skip_ws(s, i);
    if k < s.len() && (s[k] == 43 || s[k] == 45) {
        lemma_n_term(s, k + 1, d);
        match p_term(s, k + 1, d) {
            (Ok((t, j1)), d2) => if i < j1 <= s.len() {
                lemma_ranges_widen(nums_of(t), k + 1, j1, i, j1);
                lemma_ranges_concat(nums_of(acc), nums_of(t), lo, i, j1);
                let next = if s[k] == 43 {
                    Expr::Add(Box::new(acc), Box::new(t))
                } else {
                    Expr::Sub(Box::new(acc), Box::new(t))
                };
                assert(nums_of(next) == nums_of(acc) + nums_of(t));
                lemma_n_expr_rest(s, j1, next, d2, lo);
            },
            _ => {},
        }
    }
}

proof fn lemma_n_expr(s: Seq<u8>, i: int, d: Seq<Division>)
    requires
        0 <= i <= s.len(),
        s.len() < usize::MAX,
    ensures
        parsed_ranges(s, i, p_expr(s, i, d)),
    decreases s.len() - i, 4int,
{
    lemma_n_term(s, i, d);
    match p_term(s, i, d) {
        (Ok((t, j1)), d2) => if i <= j1 <= s.len() {
            lemma_n_expr_rest(s, j1, t, d2, i);
            lemma_n_expr_rest_end(s, j1, t, d2);
        },
        _ => {},
    }
}

/// Law: the numbers of a parsed value output keep the order of the text: each
/// is a non-empty range of the text, and each lies after the one before it. So
/// the operands of `1 - 2` are never swapped.
pub proof fn law_parse_keeps_number_order(s: Seq<u8>)
    ensures
        parse_spec(s) matches Ok(e) ==> ranges_in_order(nums_of(e), 0, s.len() as int),
{
    if s.len() < usize::MAX {
        lemma_n_expr(s, 0, Seq::<Division>::empty());
        match p_expr(s, 0, Seq::<Division>::empty()) {
            (Ok((e, j)), _) => {
                lemma_ranges_widen(nums_of(e), 0, j, 0, s.len() as int);
            },
            _ => {},
        }
    }
}

} // verus!
