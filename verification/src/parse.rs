//! The expression tree produced by the parser, its mathematical model, and
//! the recursive-descent parser itself.

use vstd::prelude::*;

verus! {

/// One parsed expression. A numeric literal is stored as the canonical
/// decimal rendering of the double-precision value it denotes (see
/// `crate::numerics`), so `1e3` is held as `1000`.
#[derive(Debug, PartialEq)]
pub enum Expression {
    Number(String),
    Variable(String),
    String(String),
    List(Vec<Expression>),
}

/// The mathematical model of an `Expression`: the same tree over `Seq`.
#[verifier::ext_equal]
pub enum ExprS {
    Number(Seq<char>),
    Variable(Seq<char>),
    String(Seq<char>),
    List(Seq<ExprS>),
}

pub open spec fn expr_v(e: Expression) -> ExprS
    decreases e,
{
    match e {
        Expression::Number(t) => ExprS::Number(t@),
        Expression::Variable(n) => ExprS::Variable(n@),
        Expression::String(s) => ExprS::String(s@),
        Expression::List(items) => ExprS::List(exprs_v(items@)),
    }
}

pub open spec fn exprs_v(s: Seq<Expression>) -> Seq<ExprS>
    decreases s,
{
    if s.len() == 0 {
        Seq::empty()
    } else {
        seq![expr_v(s.first())] + exprs_v(s.drop_first())
    }
}

impl View for Expression {
    type V = ExprS;

    open spec fn view(&self) -> ExprS {
        expr_v(*self)
    }
}

pub proof fn lemma_exprs_v_len(s: Seq<Expression>)
    ensures
        exprs_v(s).len() == s.len(),
    decreases s,
{
    if s.len() > 0 {
        lemma_exprs_v_len(s.drop_first());
    }
}

pub proof fn lemma_exprs_v_index(s: Seq<Expression>, i: int)
    requires
        0 <= i < s.len(),
    ensures
        exprs_v(s).len() == s.len(),
        exprs_v(s)[i] == expr_v(s[i]),
    decreases s,
{
    lemma_exprs_v_len(s);
    if i > 0 {
        lemma_exprs_v_index(s.drop_first(), i - 1);
    }
}

pub proof fn lemma_exprs_v_push(s: Seq<Expression>, e: Expression)
    ensures
        exprs_v(s.push(e)) == exprs_v(s).push(expr_v(e)),
    decreases s,
{
    let sp = s.push(e);
    if s.len() == 0 {
        assert(exprs_v(sp.drop_first()) == Seq::<ExprS>::empty());
        assert(exprs_v(s.push(e)) =~= exprs_v(s).push(expr_v(e)));
    } else {
        assert(sp.first() == s.first());
        assert(sp.drop_first() =~= s.drop_first().push(e));
        lemma_exprs_v_push(s.drop_first(), e);
        assert(exprs_v(s.push(e)) =~= exprs_v(s).push(expr_v(e)));
    }
}

pub proof fn lemma_exprs_v_pointwise(a: Seq<Expression>, b: Seq<ExprS>)
    requires
        a.len() == b.len(),
        forall|i: int| 0 <= i < a.len() ==> expr_v(a[i]) == b[i],
    ensures
        exprs_v(a) == b,
{
    lemma_exprs_v_len(a);
    assert forall|i: int| 0 <= i < a.len() implies exprs_v(a)[i] == b[i] by {
        lemma_exprs_v_index(a, i);
    }
    assert(exprs_v(a) =~= b);
}

/// The size of an expression tree: one for every node.
pub open spec fn esize(e: ExprS) -> nat
    decreases e,
{
    match e {
        ExprS::List(items) => 1 + lsize(items),
        _ => 1,
    }
}

pub open spec fn lsize(s: Seq<ExprS>) -> nat
    decreases s,
{
    if s.len() == 0 {
        0
    } else {
        esize(s.first()) + lsize(s.drop_first())
    }
}

pub proof fn lemma_esize_pos(e: ExprS)
    ensures
        esize(e) >= 1,
{
}

pub proof fn lemma_lsize_member(s: Seq<ExprS>, i: int)
    requires
        0 <= i < s.len(),
    ensures
        esize(s[i]) <= lsize(s),
    decreases s,
{
    if i > 0 {
        lemma_lsize_member(s.drop_first(), i - 1);
    }
}

pub proof fn lemma_lsize_drop(s: Seq<ExprS>)
    requires
        s.len() > 0,
    ensures
        lsize(s.drop_first()) < lsize(s),
{
    lemma_esize_pos(s.first());
}

pub proof fn lemma_exprs_v_drop(s: Seq<Expression>)
    requires
        s.len() > 0,
    ensures
        exprs_v(s).len() == s.len(),
        exprs_v(s)[0] == expr_v(s[0]),
        exprs_v(s).drop_first() == exprs_v(s.drop_first()),
{
    lemma_exprs_v_len(s);
    assert(exprs_v(s).drop_first() =~= exprs_v(s.drop_first()));
}

/// An owned copy of a run of expressions, equal to it under the model.
pub fn dup_exprs(v: &[Expression]) -> (r: Vec<Expression>)
    ensures
        exprs_v(r@) == exprs_v(v@),
    decreases lsize(exprs_v(v@)), 1int,
{
    let mut out: Vec<Expression> = Vec::new();
    let mut i: usize = 0;
    while i < v.len()
        invariant
            i <= v.len(),
            out@.len() == i as int,
            forall|k: int| 0 <= k < i as int ==> expr_v(out@[k]) == expr_v(v@[k]),
        decreases v.len() - i,
    {
        proof {
            lemma_exprs_v_index(v@, i as int);
            lemma_lsize_member(exprs_v(v@), i as int);
        }
        let d = v[i].duplicate();
        out.push(d);
        i = i + 1;
    }
    proof {
        assert forall|k: int| 0 <= k < out@.len() implies expr_v(out@[k]) == exprs_v(v@)[k] by {
            lemma_exprs_v_index(v@, k);
        }
        lemma_exprs_v_len(v@);
        lemma_exprs_v_pointwise(out@, exprs_v(v@));
    }
    out
}

impl Expression {
    /// An owned copy of the expression, equal to it under the model.
    pub fn duplicate(&self) -> (r: Expression)
        ensures
            r@ == self@,
        decreases esize(self@), 0int,
    {
        match self {
            Expression::Number(t) => Expression::Number(t.clone()),
            Expression::Variable(n) => Expression::Variable(n.clone()),
            Expression::String(s) => Expression::String(s.clone()),
            Expression::List(items) => Expression::List(dup_exprs(items)),
        }
    }
}

/// The rendered text of an expression: numbers and symbols as their text,
/// strings quoted, lists parenthesized with single spaces between elements.
pub open spec fn expr_text(e: ExprS) -> Seq<char>
    decreases e,
{
    match e {
        ExprS::Number(t) => t,
        ExprS::Variable(n) => n,
        ExprS::String(s) => "\""@ + s + "\""@,
        ExprS::List(items) => "("@ + exprs_text(items) + ")"@,
    }
}

pub open spec fn exprs_text(items: Seq<ExprS>) -> Seq<char>
    decreases items,
{
    if items.len() == 0 {
        Seq::empty()
    } else if items.len() == 1 {
        expr_text(items.first())
    } else {
        expr_text(items.first()) + " "@ + exprs_text(items.drop_first())
    }
}

/// Render a run of expressions, single spaces between them.
pub fn exprs_to_text(items: &[Expression]) -> (r: String)
    ensures
        r@ == exprs_text(exprs_v(items@)),
    decreases lsize(exprs_v(items@)), 1int,
{
    proof {
        lemma_exprs_v_len(items@);
    }
    if items.len() == 0 {
        let r = String::new();
        proof {
            assert(r@ =~= exprs_text(exprs_v(items@)));
        }
        r
    } else {
        proof {
            lemma_exprs_v_drop(items@);
            lemma_lsize_member(exprs_v(items@), 0);
            lemma_lsize_drop(exprs_v(items@));
            assert(items@.subrange(1, items@.len() as int) =~= items@.drop_first());
        }
        let mut out = items[0].to_text();
        if items.len() > 1 {
            out.append(" ");
            let rest = exprs_to_text(&items[1..items.len()]);
            out.append(rest.as_str());
        }
        out
    }
}

impl Expression {
    /// The rendered text of the expression.
    pub fn to_text(&self) -> (r: String)
        ensures
            r@ == expr_text(self@),
        decreases esize(self@), 0int,
    {
        match self {
            Expression::Number(t) => t.clone(),
            Expression::Variable(n) => n.clone(),
            Expression::String(s) => {
                let mut out = "\"".to_owned();
                out.append(s.as_str());
                out.append("\"");
                out
            }
            Expression::List(items) => {
                let mut out = "(".to_owned();
                let body = exprs_to_text(items.as_slice());
                out.append(body.as_str());
                out.append(")");
                out
            }
        }
    }
}

// ---------------------------------------------------------------------------
// The grammar.
//
// A line holds one expression, by ordered alternation, first match wins:
//   1. a floating-point numeric literal;
//   2. `(`, whitespace-separated expressions (zero or more), `)`;
//   3. a double-quoted string, no escape processing;
//   4. a maximal run of characters outside whitespace and `()"`, not starting
//      with a digit: a symbol.
// A numeric literal that reaches an exponent marker without exponent digits
// aborts the whole parse rather than backing off to another alternative.
// ---------------------------------------------------------------------------

pub open spec fn is_ws(c: char) -> bool {
    c == ' ' || c == '\t' || c == '\n' || c == '\r'
}

pub open spec fn is_digit(c: char) -> bool {
    '0' <= c && c <= '9'
}

pub open spec fn is_sym_char(c: char) -> bool {
    !is_ws(c) && c != '(' && c != ')' && c != '"'
}

pub open spec fn is_str_char(c: char) -> bool {
    c != '"'
}

/// How many consecutive whitespace characters start at `i`.
pub open spec fn ws_run(s: Seq<char>, i: int) -> nat
    decreases s.len() - i,
{
    if 0 <= i < s.len() && is_ws(s[i]) {
        1 + ws_run(s, i + 1)
    } else {
        0
    }
}

/// How many consecutive decimal digits start at `i`.
pub open spec fn digit_run(s: Seq<char>, i: int) -> nat
    decreases s.len() - i,
{
    if 0 <= i < s.len() && is_digit(s[i]) {
        1 + digit_run(s, i + 1)
    } else {
        0
    }
}

/// How many consecutive symbol characters start at `i`.
pub open spec fn sym_run(s: Seq<char>, i: int) -> nat
    decreases s.len() - i,
{
    if 0 <= i < s.len() && is_sym_char(s[i]) {
        1 + sym_run(s, i + 1)
    } else {
        0
    }
}

/// How many consecutive string-body characters start at `i`.
pub open spec fn str_run(s: Seq<char>, i: int) -> nat
    decreases s.len() - i,
{
    if 0 <= i < s.len() && is_str_char(s[i]) {
        1 + str_run(s, i + 1)
    } else {
        0
    }
}

/// What scanning a numeric literal at a position yields: no literal, a
/// literal ending at the returned position, or a hard abort (exponent marker
/// without exponent digits).
#[verifier::ext_equal]
pub enum NumScan {
    Miss,
    Tok(int),
    Abort,
}

/// The optional exponent part, entered with the mantissa ending at `p`.
pub open spec fn exp_scan(s: Seq<char>, p: int) -> NumScan {
    if 0 <= p < s.len() && (s[p] == 'e' || s[p] == 'E') {
        let pe = if p + 1 < s.len() && (s[p + 1] == '+' || s[p + 1] == '-') {
            p + 2
        } else {
            p + 1
        };
        if 0 <= pe < s.len() && is_digit(s[pe]) {
            NumScan::Tok(pe + 1 + digit_run(s, pe + 1))
        } else {
            NumScan::Abort
        }
    } else {
        NumScan::Tok(p)
    }
}

pub open spec fn is_nan_at(s: Seq<char>, pos: int) -> bool {
    &&& pos + 3 <= s.len()
    &&& (s[pos] == 'n' || s[pos] == 'N')
    &&& (s[pos + 1] == 'a' || s[pos + 1] == 'A')
    &&& (s[pos + 2] == 'n' || s[pos + 2] == 'N')
}

pub open spec fn is_inf_at(s: Seq<char>, pos: int) -> bool {
    &&& pos + 3 <= s.len()
    &&& (s[pos] == 'i' || s[pos] == 'I')
    &&& (s[pos + 1] == 'n' || s[pos + 1] == 'N')
    &&& (s[pos + 2] == 'f' || s[pos + 2] == 'F')
}

pub open spec fn is_infinity_at(s: Seq<char>, pos: int) -> bool {
    &&& is_inf_at(s, pos)
    &&& pos + 8 <= s.len()
    &&& (s[pos + 3] == 'i' || s[pos + 3] == 'I')
    &&& (s[pos + 4] == 'n' || s[pos + 4] == 'N')
    &&& (s[pos + 5] == 'i' || s[pos + 5] == 'I')
    &&& (s[pos + 6] == 't' || s[pos + 6] == 'T')
    &&& (s[pos + 7] == 'y' || s[pos + 7] == 'Y')
}

/// The numeric literal grammar:
/// `sign? (digits ('.' digits?)? | '.' digits) ([eE] sign? digits)?`,
/// each run maximal, or one of the case-insensitive exceptions `nan`,
/// `infinity`, `inf`, tried in that order and without a sign.
pub open spec fn num_token(s: Seq<char>, pos: int) -> NumScan {
    let p1 = if 0 <= pos < s.len() && (s[pos] == '+' || s[pos] == '-') {
        pos + 1
    } else {
        pos
    };
    if 0 <= p1 < s.len() && is_digit(s[p1]) {
        let p2 = p1 + 1 + digit_run(s, p1 + 1);
        if 0 <= p2 < s.len() && s[p2] == '.' {
            exp_scan(s, p2 + 1 + digit_run(s, p2 + 1))
        } else {
            exp_scan(s, p2)
        }
    } else if 0 <= p1 < s.len() && s[p1] == '.' && p1 + 1 < s.len() && is_digit(s[p1 + 1]) {
        exp_scan(s, p1 + 2 + digit_run(s, p1 + 2))
    } else if is_nan_at(s, pos) {
        NumScan::Tok(pos + 3)
    } else if is_infinity_at(s, pos) {
        NumScan::Tok(pos + 8)
    } else if is_inf_at(s, pos) {
        NumScan::Tok(pos + 3)
    } else {
        NumScan::Miss
    }
}

/// A position clamped to the end of the input; recursion arguments are
/// clamped so that termination is structural (every in-range position is
/// unchanged).
pub open spec fn cap(s: Seq<char>, i: int) -> int {
    if i > s.len() {
        s.len() as int
    } else {
        i
    }
}

/// The outcome of parsing one expression: the expression and how many
/// characters it used, a soft failure that lets an enclosing alternative
/// backtrack, or a hard abort.
#[verifier::ext_equal]
pub enum PRes {
    One(ExprS, nat),
    Fail,
    Abort,
}

/// The outcome of parsing a whitespace-separated run of expressions: the
/// expressions and how many characters they used (an empty run uses none),
/// or a hard abort.
#[verifier::ext_equal]
pub enum SeqRes {
    Run(Seq<ExprS>, nat),
    Abort,
}

/// Parse one expression at `pos`, by the ordered alternation above.
pub open spec fn parse_expr_spec(s: Seq<char>, pos: int) -> PRes
    decreases s.len() - pos, 1int,
{
    if !(0 <= pos <= s.len()) {
        PRes::Fail
    } else {
        match num_token(s, pos) {
            NumScan::Abort => PRes::Abort,
            NumScan::Tok(end) => PRes::One(
                ExprS::Number(crate::numerics::canon_of(s.subrange(pos, end))),
                (end - pos) as nat,
            ),
            NumScan::Miss => {
                if pos < s.len() && s[pos] == '(' {
                    let i0 = pos + 1 + ws_run(s, pos + 1);
                    match parse_seq_spec(s, cap(s, i0)) {
                        SeqRes::Abort => PRes::Abort,
                        SeqRes::Run(items, used) => {
                            let p = i0 + used;
                            let q = p + ws_run(s, p);
                            if 0 <= q < s.len() && s[q] == ')' {
                                PRes::One(ExprS::List(items), (q + 1 - pos) as nat)
                            } else {
                                PRes::Fail
                            }
                        }
                    }
                } else if pos < s.len() && s[pos] == '"' {
                    let e = pos + 1 + str_run(s, pos + 1);
                    if 0 <= e < s.len() && s[e] == '"' {
                        PRes::One(ExprS::String(s.subrange(pos + 1, e)), (e + 1 - pos) as nat)
                    } else {
                        PRes::Fail
                    }
                } else if pos < s.len() && !is_digit(s[pos]) && is_sym_char(s[pos]) {
                    let e = pos + 1 + sym_run(s, pos + 1);
                    PRes::One(ExprS::Variable(s.subrange(pos, e)), (e - pos) as nat)
                } else {
                    PRes::Fail
                }
            }
        }
    }
}

/// Parse a possibly empty separated run: one expression, then further
/// expressions each preceded by at least one whitespace character. A soft
/// failure of the first expression yields the empty run.
pub open spec fn parse_seq_spec(s: Seq<char>, pos: int) -> SeqRes
    decreases s.len() - pos, 2int,
{
    if !(0 <= pos <= s.len()) {
        SeqRes::Run(Seq::empty(), 0)
    } else {
        match parse_expr_spec(s, pos) {
            PRes::Abort => SeqRes::Abort,
            PRes::Fail => SeqRes::Run(Seq::empty(), 0),
            PRes::One(e, used) => match parse_more_spec(s, cap(s, pos + used)) {
                SeqRes::Abort => SeqRes::Abort,
                SeqRes::Run(rest, used2) => SeqRes::Run(seq![e] + rest, used + used2),
            },
        }
    }
}

/// Parse the continuation of a separated run: a separator of one or more
/// whitespace characters followed by an expression, repeated; a missing
/// separator or a soft failure after one ends the run before the separator.
pub open spec fn parse_more_spec(s: Seq<char>, pos: int) -> SeqRes
    decreases s.len() - pos, 0int,
{
    if !(0 <= pos <= s.len()) {
        SeqRes::Run(Seq::empty(), 0)
    } else {
        let w = ws_run(s, pos);
        if w == 0 {
            SeqRes::Run(Seq::empty(), 0)
        } else {
            match parse_expr_spec(s, cap(s, pos + w)) {
                PRes::Abort => SeqRes::Abort,
                PRes::Fail => SeqRes::Run(Seq::empty(), 0),
                PRes::One(e, used) => match parse_more_spec(s, cap(s, pos + w + used)) {
                    SeqRes::Abort => SeqRes::Abort,
                    SeqRes::Run(rest, used2) => SeqRes::Run(seq![e] + rest, w + used + used2),
                },
            }
        }
    }
}

// ---------------------------------------------------------------------------
// The executable parser.
// ---------------------------------------------------------------------------

fn is_ws_exec(c: char) -> (r: bool)
    ensures
        r == is_ws(c),
{
    c == ' ' || c == '\t' || c == '\n' || c == '\r'
}

fn is_digit_exec(c: char) -> (r: bool)
    ensures
        r == is_digit(c),
{
    c >= '0' && c <= '9'
}

fn scan_ws(s: &str, from: usize, len: usize) -> (r: usize)
    requires
        len as int == s@.len(),
        from <= len,
    ensures
        from <= r <= len,
        r as int == from + ws_run(s@, from as int),
{
    let mut i: usize = from;
    loop
        invariant
            len as int == s@.len(),
            from <= i <= len,
            from + ws_run(s@, from as int) == i + ws_run(s@, i as int),
        decreases len - i,
    {
        if i == len {
            return i;
        }
        let c = s.get_char(i);
        if is_ws_exec(c) {
            i = i + 1;
        } else {
            return i;
        }
    }
}

fn scan_digits(s: &str, from: usize, len: usize) -> (r: usize)
    requires
        len as int == s@.len(),
        from <= len,
    ensures
        from <= r <= len,
        r as int == from + digit_run(s@, from as int),
{
    let mut i: usize = from;
    loop
        invariant
            len as int == s@.len(),
            from <= i <= len,
            from + digit_run(s@, from as int) == i + digit_run(s@, i as int),
        decreases len - i,
    {
        if i == len {
            return i;
        }
        let c = s.get_char(i);
        if is_digit_exec(c) {
            i = i + 1;
        } else {
            return i;
        }
    }
}

fn scan_sym(s: &str, from: usize, len: usize) -> (r: usize)
    requires
        len as int == s@.len(),
        from <= len,
    ensures
        from <= r <= len,
        r as int == from + sym_run(s@, from as int),
{
    let mut i: usize = from;
    loop
        invariant
            len as int == s@.len(),
            from <= i <= len,
            from + sym_run(s@, from as int) == i + sym_run(s@, i as int),
        decreases len - i,
    {
        if i == len {
            return i;
        }
        let c = s.get_char(i);
        if !is_ws_exec(c) && c != '(' && c != ')' && c != '"' {
            i = i + 1;
        } else {
            return i;
        }
    }
}

fn scan_str(s: &str, from: usize, len: usize) -> (r: usize)
    requires
        len as int == s@.len(),
        from <= len,
    ensures
        from <= r <= len,
        r as int == from + str_run(s@, from as int),
        r < len ==> s@[r as int] == '"',
{
    let mut i: usize = from;
    loop
        invariant
            len as int == s@.len(),
            from <= i <= len,
            from + str_run(s@, from as int) == i + str_run(s@, i as int),
        decreases len - i,
    {
        if i == len {
            return i;
        }
        let c = s.get_char(i);
        if c != '"' {
            i = i + 1;
        } else {
            return i;
        }
    }
}

/// The executable counterpart of `NumScan`.
enum NumTokE {
    Miss,
    Tok(usize),
    Abort,
}

fn tag_nan(s: &str, pos: usize, len: usize) -> (r: bool)
    requires
        len as int == s@.len(),
        pos <= len,
    ensures
        r == is_nan_at(s@, pos as int),
{
    if len - pos < 3 {
        return false;
    }
    let c0 = s.get_char(pos);
    let c1 = s.get_char(pos + 1);
    let c2 = s.get_char(pos + 2);
    (c0 == 'n' || c0 == 'N') && (c1 == 'a' || c1 == 'A') && (c2 == 'n' || c2 == 'N')
}

fn tag_inf(s: &str, pos: usize, len: usize) -> (r: bool)
    requires
        len as int == s@.len(),
        pos <= len,
    ensures
        r == is_inf_at(s@, pos as int),
{
    if len - pos < 3 {
        return false;
    }
    let c0 = s.get_char(pos);
    let c1 = s.get_char(pos + 1);
    let c2 = s.get_char(pos + 2);
    (c0 == 'i' || c0 == 'I') && (c1 == 'n' || c1 == 'N') && (c2 == 'f' || c2 == 'F')
}

fn tag_infinity(s: &str, pos: usize, len: usize) -> (r: bool)
    requires
        len as int == s@.len(),
        pos <= len,
    ensures
        r == is_infinity_at(s@, pos as int),
{
    if !tag_inf(s, pos, len) {
        return false;
    }
    if len - pos < 8 {
        return false;
    }
    let c3 = s.get_char(pos + 3);
    let c4 = s.get_char(pos + 4);
    let c5 = s.get_char(pos + 5);
    let c6 = s.get_char(pos + 6);
    let c7 = s.get_char(pos + 7);
    (c3 == 'i' || c3 == 'I') && (c4 == 'n' || c4 == 'N') && (c5 == 'i' || c5 == 'I') && (c6 == 't'
        || c6 == 'T') && (c7 == 'y' || c7 == 'Y')
}

fn exp_scan_exec(s: &str, p: usize, len: usize) -> (r: NumTokE)
    requires
        len as int == s@.len(),
        p <= len,
    ensures
        match r {
            NumTokE::Miss => false,
            NumTokE::Tok(end) => exp_scan(s@, p as int) == NumScan::Tok(end as int) && p <= end
                <= len,
            NumTokE::Abort => exp_scan(s@, p as int) == NumScan::Abort,
        },
{
    if p == len {
        return NumTokE::Tok(p);
    }
    let c = s.get_char(p);
    if !(c == 'e' || c == 'E') {
        return NumTokE::Tok(p);
    }
    let mut pe: usize = p + 1;
    if p + 1 < len {
        let cs = s.get_char(p + 1);
        if cs == '+' || cs == '-' {
            pe = p + 2;
        }
    }
    if pe < len && is_digit_exec(s.get_char(pe)) {
        let end = scan_digits(s, pe + 1, len);
        NumTokE::Tok(end)
    } else {
        NumTokE::Abort
    }
}

fn num_token_exec(s: &str, pos: usize, len: usize) -> (r: NumTokE)
    requires
        len as int == s@.len(),
        pos <= len,
    ensures
        match r {
            NumTokE::Miss => num_token(s@, pos as int) == NumScan::Miss,
            NumTokE::Tok(end) => num_token(s@, pos as int) == NumScan::Tok(end as int) && pos < end
                <= len,
            NumTokE::Abort => num_token(s@, pos as int) == NumScan::Abort,
        },
{
    let mut p1: usize = pos;
    if pos < len {
        let c = s.get_char(pos);
        if c == '+' || c == '-' {
            p1 = pos + 1;
        }
    }
    if p1 < len && is_digit_exec(s.get_char(p1)) {
        let p2 = scan_digits(s, p1 + 1, len);
        let mut m: usize = p2;
        if p2 < len && s.get_char(p2) == '.' {
            m = scan_digits(s, p2 + 1, len);
        }
        exp_scan_exec(s, m, len)
    } else if p1 < len && s.get_char(p1) == '.' && p1 + 1 < len && is_digit_exec(
        s.get_char(p1 + 1),
    ) {
        let m = scan_digits(s, p1 + 2, len);
        exp_scan_exec(s, m, len)
    } else if tag_nan(s, pos, len) {
        NumTokE::Tok(pos + 3)
    } else if tag_infinity(s, pos, len) {
        NumTokE::Tok(pos + 8)
    } else if tag_inf(s, pos, len) {
        NumTokE::Tok(pos + 3)
    } else {
        NumTokE::Miss
    }
}

/// The executable counterpart of `PRes`.
enum PResE {
    One(Expression, usize),
    Fail,
    Abort,
}

/// The executable counterpart of `SeqRes`.
enum SeqE {
    Run(Vec<Expression>, usize),
    Abort,
}

fn parse_expr_exec(s: &str, pos: usize, len: usize) -> (r: PResE)
    requires
        len as int == s@.len(),
        pos <= len,
    ensures
        match r {
            PResE::One(e, u) => parse_expr_spec(s@, pos as int) == PRes::One(e@, u as nat) && 1
                <= u && pos + u <= len,
            PResE::Fail => parse_expr_spec(s@, pos as int) == PRes::Fail,
            PResE::Abort => parse_expr_spec(s@, pos as int) == PRes::Abort,
        },
    decreases len - pos, 1int,
{
    match num_token_exec(s, pos, len) {
        NumTokE::Abort => PResE::Abort,
        NumTokE::Tok(end) => {
            let lit = s.substring_char(pos, end);
            let canon = crate::numerics::canon_number(lit);
            PResE::One(Expression::Number(canon), end - pos)
        }
        NumTokE::Miss => {
            if pos == len {
                return PResE::Fail;
            }
            let c = s.get_char(pos);
            if c == '(' {
                let i0 = scan_ws(s, pos + 1, len);
                match parse_seq_exec(s, i0, len) {
                    SeqE::Abort => PResE::Abort,
                    SeqE::Run(items, u) => {
                        let p = i0 + u;
                        let q = scan_ws(s, p, len);
                        if q < len && s.get_char(q) == ')' {
                            PResE::One(Expression::List(items), q + 1 - pos)
                        } else {
                            PResE::Fail
                        }
                    }
                }
            } else if c == '"' {
                let e = scan_str(s, pos + 1, len);
                if e < len {
                    let body = s.substring_char(pos + 1, e).to_owned();
                    PResE::One(Expression::String(body), e + 1 - pos)
                } else {
                    PResE::Fail
                }
            } else if !is_digit_exec(c) && !is_ws_exec(c) && c != ')' {
                let e = scan_sym(s, pos + 1, len);
                let name = s.substring_char(pos, e).to_owned();
                PResE::One(Expression::Variable(name), e - pos)
            } else {
                PResE::Fail
            }
        }
    }
}

fn parse_seq_exec(s: &str, pos: usize, len: usize) -> (r: SeqE)
    requires
        len as int == s@.len(),
        pos <= len,
    ensures
        match r {
            SeqE::Run(items, u) => parse_seq_spec(s@, pos as int) == SeqRes::Run(
                exprs_v(items@),
                u as nat,
            ) && pos + u <= len,
            SeqE::Abort => parse_seq_spec(s@, pos as int) == SeqRes::Abort,
        },
    decreases len - pos, 2int,
{
    match parse_expr_exec(s, pos, len) {
        PResE::Abort => SeqE::Abort,
        PResE::Fail => {
            let items: Vec<Expression> = Vec::new();
            proof {
                assert(exprs_v(items@) =~= Seq::<ExprS>::empty());
            }
            SeqE::Run(items, 0)
        }
        PResE::One(e, u) => {
            let mut items: Vec<Expression> = Vec::new();
            let ghost empty_items = items@;
            let ghost e_snap = e;
            let ghost e_v = e@;
            items.push(e);
            let mut cur: usize = pos + u;
            proof {
                lemma_exprs_v_push(empty_items, e_snap);
                assert(exprs_v(items@) =~= seq![e_v]);
            }
            loop
                invariant
                    len as int == s@.len(),
                    pos + 1 <= cur <= len,
                    match parse_more_spec(s@, cur as int) {
                        SeqRes::Run(rest, u2) => parse_seq_spec(s@, pos as int) == SeqRes::Run(
                            exprs_v(items@) + rest,
                            (cur - pos + u2) as nat,
                        ),
                        SeqRes::Abort => parse_seq_spec(s@, pos as int) == SeqRes::Abort,
                    },
                decreases len - cur,
            {
                let q = scan_ws(s, cur, len);
                if q == cur {
                    proof {
                        assert(parse_more_spec(s@, cur as int) == SeqRes::Run(
                            Seq::<ExprS>::empty(),
                            0nat,
                        ));
                        assert(exprs_v(items@) + Seq::<ExprS>::empty() =~= exprs_v(items@));
                    }
                    return SeqE::Run(items, cur - pos);
                }
                match parse_expr_exec(s, q, len) {
                    PResE::Fail => {
                        proof {
                            assert(parse_more_spec(s@, cur as int) == SeqRes::Run(
                                Seq::<ExprS>::empty(),
                                0nat,
                            ));
                            assert(exprs_v(items@) + Seq::<ExprS>::empty() =~= exprs_v(items@));
                        }
                        return SeqE::Run(items, cur - pos);
                    }
                    PResE::Abort => {
                        return SeqE::Abort;
                    }
                    PResE::One(e2, u2) => {
                        let ghost pre_items = items@;
                        let ghost e2_snap = e2;
                        let ghost e2_v = e2@;
                        let ghost old_cur = cur as int;
                        items.push(e2);
                        cur = q + u2;
                        proof {
                            lemma_exprs_v_push(pre_items, e2_snap);
                            match parse_more_spec(s@, cur as int) {
                                SeqRes::Run(rest, u3) => {
                                    assert(parse_more_spec(s@, old_cur) == SeqRes::Run(
                                        seq![e2_v] + rest,
                                        (cur - old_cur + u3) as nat,
                                    ));
                                    assert(exprs_v(pre_items) + (seq![e2_v] + rest) =~= exprs_v(
                                        items@,
                                    ) + rest);
                                }
                                SeqRes::Abort => {
                                    assert(parse_more_spec(s@, old_cur) == SeqRes::Abort);
                                }
                            }
                        }
                    }
                }
            }
        }
    }
}

/// The model of `parse_expression_inner`: surrounding whitespace trimmed, a
/// possibly empty whitespace-separated run of expressions between.
pub open spec fn parse_inner_spec(s: Seq<char>) -> Option<(Seq<ExprS>, int)> {
    let w0 = ws_run(s, 0) as int;
    match parse_seq_spec(s, cap(s, w0)) {
        SeqRes::Abort => None,
        SeqRes::Run(items, u) => {
            let p = w0 + u as int;
            Some((items, p + ws_run(s, p) as int))
        },
    }
}

/// Parse a whitespace-separated run of expressions, surrounding whitespace
/// trimmed; hands back the unconsumed tail of the input beside the
/// expressions, or nothing when a numeric literal aborts the parse.
pub fn parse_expression_inner<'a>(input: &'a str) -> (r: Option<(&'a str, Vec<Expression>)>)
    ensures
        match parse_inner_spec(input@) {
            Some((items, end)) => match r {
                Some(p) => exprs_v(p.1@) == items && p.0@ == input@.subrange(
                    end,
                    input@.len() as int,
                ),
                None => false,
            },
            None => r is None,
        },
{
    let len = input.unicode_len();
    let w0 = scan_ws(input, 0, len);
    match parse_seq_exec(input, w0, len) {
        SeqE::Abort => None,
        SeqE::Run(items, u) => {
            let p = w0 + u;
            let q = scan_ws(input, p, len);
            let rem = input.substring_char(q, len);
            Some((rem, items))
        }
    }
}

/// Parse exactly one expression from the front of the input, handing back
/// the unconsumed tail beside it; nothing on any parse failure.
pub fn parse_expression<'a>(input: &'a str) -> (r: Option<(&'a str, Expression)>)
    ensures
        match parse_expr_spec(input@, 0) {
            PRes::One(e, used) => match r {
                Some(p) => p.1@ == e && p.0@ == input@.subrange(used as int, input@.len() as int),
                None => false,
            },
            PRes::Fail => r is None,
            PRes::Abort => r is None,
        },
{
    let len = input.unicode_len();
    match parse_expr_exec(input, 0, len) {
        PResE::One(expr, used) => {
            let rem = input.substring_char(used, len);
            Some((rem, expr))
        }
        PResE::Fail => None,
        PResE::Abort => None,
    }
}

/// The model of `parse_lisp_variable`: a maximal nonempty run of symbol
/// characters not starting with a digit.
pub open spec fn parse_variable_spec(s: Seq<char>) -> Option<(Seq<char>, int)> {
    if s.len() > 0 && !is_digit(s[0]) && is_sym_char(s[0]) {
        let e = 1 + sym_run(s, 1);
        Some((s.subrange(0, e as int), e as int))
    } else {
        None
    }
}

/// Parse a symbol from the front of the input, handing back the unconsumed
/// tail beside its text.
pub fn parse_lisp_variable<'a>(input: &'a str) -> (r: Option<(&'a str, String)>)
    ensures
        match parse_variable_spec(input@) {
            Some(p) => match r {
                Some(q) => q.1@ == p.0 && q.0@ == input@.subrange(p.1, input@.len() as int),
                None => false,
            },
            None => r is None,
        },
{
    let len = input.unicode_len();
    if len == 0 {
        return None;
    }
    let c = input.get_char(0);
    if !is_digit_exec(c) && !is_ws_exec(c) && c != '(' && c != ')' && c != '"' {
        let e = scan_sym(input, 1, len);
        let name = input.substring_char(0, e).to_owned();
        let rem = input.substring_char(e, len);
        Some((rem, name))
    } else {
        None
    }
}

} // verus!
