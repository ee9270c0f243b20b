//! Random expressions. The numbers that chance gives are drawn beforehand; what is
//! made of them is decided here.

use vstd::prelude::*;

use crate::common::text::{decimal, decimal_text};
use crate::expr::to_char::{chrono_format, chrono_shown};
use crate::frontend::expr::ExprType;
use crate::frontend::operators::BinaryOperator;

verus! {

/// The name of a type.
#[derive(Clone, Copy, Debug, PartialEq, Eq, Structural)]
pub enum DataTypeName {
    Boolean,
    Int16,
    Int32,
    Int64,
    Decimal,
    Float32,
    Float64,
    Varchar,
    Date,
    Timestamp,
    Timestampz,
    Time,
    Interval,
    Struct,
    List,
}

/// The signature of a function.
#[derive(Debug)]
pub struct FuncSign {
    pub func: ExprType,
    pub inputs_type: Vec<DataTypeName>,
    pub ret_type: DataTypeName,
}

/// The type before a quoted value.
#[derive(Clone, Copy, Debug, PartialEq, Eq, Structural)]
pub enum TypedKind {
    Date,
    Time,
    Timestamp,
    Interval,
}

/// A constant in SQL.
#[derive(Debug)]
pub enum Constant {
    Null,
    Number(String),
    SingleQuotedString(String),
    Boolean(bool),
}

/// An expression in SQL.
#[derive(Debug)]
pub enum Expr {
    Constant(Constant),
    TypedString { data_type: TypedKind, value: String },
    BinaryOp { left: Box<Expr>, op: BinaryOperator, right: Box<Expr> },
}

/// An expression by its meaning.
pub enum ExprView {
    Null,
    Number(Seq<char>),
    Text(Seq<char>),
    Boolean(bool),
    TypedString(TypedKind, Seq<char>),
    BinaryOp(Box<ExprView>, BinaryOperator, Box<ExprView>),
}

/// An expression by its meaning.
pub open spec fn expr_view(e: Expr) -> ExprView
    decreases e,
{
    match e {
        Expr::Constant(Constant::Null) => ExprView::Null,
        Expr::Constant(Constant::Number(n)) => ExprView::Number(n@),
        Expr::Constant(Constant::SingleQuotedString(s)) => ExprView::Text(s@),
        Expr::Constant(Constant::Boolean(b)) => ExprView::Boolean(b),
        Expr::TypedString { data_type, value } => ExprView::TypedString(data_type, value@),
        Expr::BinaryOp { left, op, right } => ExprView::BinaryOp(
            Box::new(expr_view(*left)),
            op,
            Box::new(expr_view(*right)),
        ),
    }
}

/// Expressions by their meaning.
pub open spec fn expr_views(exprs: Seq<Expr>) -> Seq<ExprView> {
    Seq::new(exprs.len(), |i: int| expr_view(exprs[i]))
}

/// The operator of a function.
pub open spec fn operator_of(func: ExprType) -> Option<BinaryOperator> {
    match func {
        ExprType::Add => Some(BinaryOperator::Plus),
        ExprType::Subtract => Some(BinaryOperator::Minus),
        ExprType::Multiply => Some(BinaryOperator::Multiply),
        ExprType::Divide => Some(BinaryOperator::Divide),
        ExprType::Modulus => Some(BinaryOperator::Modulo),
        ExprType::GreaterThan => Some(BinaryOperator::Gt),
        ExprType::GreaterThanOrEqual => Some(BinaryOperator::GtEq),
        ExprType::LessThan => Some(BinaryOperator::Lt),
        ExprType::LessThanOrEqual => Some(BinaryOperator::LtEq),
        ExprType::Equal => Some(BinaryOperator::Eq),
        ExprType::NotEqual => Some(BinaryOperator::NotEq),
        ExprType::And => Some(BinaryOperator::And),
        ExprType::Or => Some(BinaryOperator::Or),
        ExprType::Like => Some(BinaryOperator::Like),
        ExprType::BitwiseAnd => Some(BinaryOperator::BitwiseAnd),
        ExprType::BitwiseOr => Some(BinaryOperator::BitwiseOr),
        ExprType::BitwiseXor => Some(BinaryOperator::PGBitwiseXor),
        ExprType::BitwiseShiftLeft => Some(BinaryOperator::PGBitwiseShiftLeft),
        ExprType::BitwiseShiftRight => Some(BinaryOperator::PGBitwiseShiftRight),
        _ => None,
    }
}

/// The expression of a function of two arguments: null if it has no operator.
pub open spec fn bin_op(func: ExprType, left: ExprView, right: ExprView) -> ExprView {
    match operator_of(func) {
        Some(op) => ExprView::BinaryOp(Box::new(left), op, Box::new(right)),
        None => ExprView::Null,
    }
}

/// The expression of a function of two arguments: null if it has no operator.
pub fn make_bin_op(func: ExprType, left: Expr, right: Expr) -> (r: Expr)
    ensures
        expr_view(r) == bin_op(func, expr_view(left), expr_view(right)),
{
    let bin_op = match func {
        ExprType::Add => BinaryOperator::Plus,
        ExprType::Subtract => BinaryOperator::Minus,
        ExprType::Multiply => BinaryOperator::Multiply,
        ExprType::Divide => BinaryOperator::Divide,
        ExprType::Modulus => BinaryOperator::Modulo,
        ExprType::GreaterThan => BinaryOperator::Gt,
        ExprType::GreaterThanOrEqual => BinaryOperator::GtEq,
        ExprType::LessThan => BinaryOperator::Lt,
        ExprType::LessThanOrEqual => BinaryOperator::LtEq,
        ExprType::Equal => BinaryOperator::Eq,
        ExprType::NotEqual => BinaryOperator::NotEq,
        ExprType::And => BinaryOperator::And,
        ExprType::Or => BinaryOperator::Or,
        ExprType::Like => BinaryOperator::Like,
        ExprType::BitwiseAnd => BinaryOperator::BitwiseAnd,
        ExprType::BitwiseOr => BinaryOperator::BitwiseOr,
        ExprType::BitwiseXor => BinaryOperator::PGBitwiseXor,
        ExprType::BitwiseShiftLeft => BinaryOperator::PGBitwiseShiftLeft,
        ExprType::BitwiseShiftRight => BinaryOperator::PGBitwiseShiftRight,
        _ => {
            return sql_null();
        },
    };
    Expr::BinaryOp { left: Box::new(left), op: bin_op, right: Box::new(right) }
}

/// NULL.
pub fn sql_null() -> (r: Expr)
    ensures
        expr_view(r) == ExprView::Null,
{
    Expr::Constant(Constant::Null)
}

/// What chance gave, and the time.
#[derive(Debug)]
pub struct Draws {
    /// Drawn numbers.
    pub numbers: Vec<u64>,
    /// Texts of drawn numbers with a fraction.
    pub fractions: Vec<String>,
    /// The time, in seconds since 1970 and nanoseconds.
    pub now_secs: u32,
    pub now_nanos: u32,
}

/// Makes SQL.
#[derive(Debug)]
pub struct SqlGenerator {
    /// The functions that are known.
    pub funcs: Vec<FuncSign>,
    pub draws: Draws,
}

/// The letters and digits, in the order in which they are drawn.
pub open spec fn alphanumeric(n: nat) -> char {
    if n < 26 {
        (('A' as u32) + n) as char
    } else if n < 52 {
        (('a' as u32) + (n - 26)) as char
    } else {
        (('0' as u32) + (n - 52)) as char
    }
}

/// The text of `n` drawn letters and digits, from `at` on.
pub open spec fn drawn_text(numbers: Seq<u64>, at: int, n: int) -> Seq<char>
    decreases n,
{
    if n <= 0 {
        Seq::empty()
    } else {
        drawn_text(numbers, at, n - 1).push(alphanumeric((numbers[at + n - 1] % 62) as nat))
    }
}

/// The functions among the first `n` that return the type.
pub open spec fn returning(funcs: Seq<FuncSign>, ret: DataTypeName, n: int) -> Seq<int>
    decreases n,
{
    if n <= 0 {
        Seq::empty()
    } else if funcs[n - 1].ret_type == ret {
        returning(funcs, ret, n - 1).push(n - 1)
    } else {
        returning(funcs, ret, n - 1)
    }
}

/// A time as text, `secs` before now.
pub open spec fn temporal(typ: DataTypeName, draws: Draws, secs: u64) -> Option<Seq<char>> {
    let at = (draws.now_secs - secs) as i64;
    match typ {
        DataTypeName::Date => chrono_shown(at, draws.now_nanos, "%F"@),
        DataTypeName::Timestamp | DataTypeName::Timestampz => chrono_shown(
            at,
            draws.now_nanos,
            "%Y-%m-%d %H:%M:%S"@,
        ),
        DataTypeName::Time => chrono_shown(at, draws.now_nanos, "%T"@),
        _ => Some(decimal(secs as nat)),
    }
}

/// How many drawn numbers a constant of the type takes.
pub open spec fn draws_of(typ: DataTypeName) -> int {
    match typ {
        DataTypeName::Varchar => 10,
        DataTypeName::Struct | DataTypeName::List => 0,
        _ => 1,
    }
}

/// A constant of the type, made of the numbers from `at` on.
pub open spec fn scalar(typ: DataTypeName, draws: Draws, at: int) -> Option<ExprView> {
    let number = draws.numbers@[at];
    match typ {
        DataTypeName::Int16 | DataTypeName::Int32 | DataTypeName::Int64 => Some(
            ExprView::Number(decimal((number % 100) as nat)),
        ),
        DataTypeName::Varchar => Some(ExprView::Text(drawn_text(draws.numbers@, at, 10))),
        DataTypeName::Decimal | DataTypeName::Float32 | DataTypeName::Float64 => if draws.fractions@.len() == 0 {
            None
        } else {
            Some(ExprView::Number(draws.fractions@[number as int % draws.fractions@.len() as int]@))
        },
        DataTypeName::Boolean => Some(ExprView::Boolean(number % 2 == 1)),
        DataTypeName::Date => typed(TypedKind::Date, temporal(typ, draws, number % 1_000_000)),
        DataTypeName::Time => typed(TypedKind::Time, temporal(typ, draws, number % 1_000_000)),
        DataTypeName::Timestamp | DataTypeName::Timestampz => typed(
            TypedKind::Timestamp,
            temporal(typ, draws, number % 1_000_000),
        ),
        DataTypeName::Interval => typed(TypedKind::Interval, temporal(typ, draws, number % 1_000_000)),
        DataTypeName::Struct | DataTypeName::List => Some(ExprView::Null),
    }
}

/// A typed constant, if there is a text.
pub open spec fn typed(kind: TypedKind, text: Option<Seq<char>>) -> Option<ExprView> {
    match text {
        Some(t) => Some(ExprView::TypedString(kind, t)),
        None => None,
    }
}

/// An expression of the type made of the numbers from `at` on, and where the numbers
/// that are left begin; none if the numbers do not suffice.
pub open spec fn generated(g: SqlGenerator, typ: DataTypeName, at: int) -> Option<(ExprView, int)>
    decreases g.draws.numbers@.len() - at, 0int,
{
    let numbers = g.draws.numbers@;
    if !(0 <= at < numbers.len()) {
        None
    } else if numbers[at] % 100 <= 49 {
        func_generated(g, typ, at + 1)
    } else if at + 1 + draws_of(typ) > numbers.len() {
        None
    } else {
        match scalar(typ, g.draws, at + 1) {
            Some(e) => Some((e, at + 1 + draws_of(typ))),
            None => None,
        }
    }
}

/// A call of a function that returns the type: null if there is no such function, or
/// if the one that is drawn does not have two arguments.
pub open spec fn func_generated(g: SqlGenerator, ret: DataTypeName, at: int) -> Option<(ExprView, int)>
    decreases g.draws.numbers@.len() - at, 0int,
{
    let numbers = g.draws.numbers@;
    let funcs = returning(g.funcs@, ret, g.funcs@.len() as int);
    if funcs.len() == 0 {
        Some((ExprView::Null, at))
    } else if !(0 <= at < numbers.len()) {
        None
    } else {
        let func = g.funcs@[funcs[numbers[at] as int % funcs.len() as int]];
        match args_generated(g, func.inputs_type@, func.inputs_type@.len() as int, at + 1) {
            None => None,
            Some((args, rest)) => if args.len() == 2 {
                Some((bin_op(func.func, args[0], args[1]), rest))
            } else {
                Some((ExprView::Null, rest))
            },
        }
    }
}

/// Expressions of the first `n` types.
pub open spec fn args_generated(g: SqlGenerator, types: Seq<DataTypeName>, n: int, at: int) -> Option<
    (Seq<ExprView>, int),
>
    decreases g.draws.numbers@.len() - at, n,
{
    if at > g.draws.numbers@.len() {
        None
    } else if n <= 0 {
        Some((Seq::empty(), at))
    } else {
        match args_generated(g, types, n - 1, at) {
            None => None,
            Some((args, rest)) => if rest < at || rest > g.draws.numbers@.len() {
                None
            } else {
                match generated(g, types[n - 1], rest) {
                    None => None,
                    Some((e, last)) => Some((args.push(e), last)),
                }
            },
        }
    }
}

proof fn lemma_rest(g: SqlGenerator, typ: DataTypeName, at: int)
    ensures
        generated(g, typ, at) matches Some((e, rest)) ==> at < rest <= g.draws.numbers@.len(),
    decreases g.draws.numbers@.len() - at, 0int,
{
    if 0 <= at < g.draws.numbers@.len() && g.draws.numbers@[at] % 100 <= 49 {
        lemma_func_rest(g, typ, at + 1);
    }
}

proof fn lemma_func_rest(g: SqlGenerator, ret: DataTypeName, at: int)
    requires
        at <= g.draws.numbers@.len(),
    ensures
        func_generated(g, ret, at) matches Some((e, rest)) ==> at <= rest <= g.draws.numbers@.len(),
    decreases g.draws.numbers@.len() - at, 0int,
{
    let numbers = g.draws.numbers@;
    let funcs = returning(g.funcs@, ret, g.funcs@.len() as int);
    if funcs.len() > 0 && 0 <= at < numbers.len() {
        let func = g.funcs@[funcs[numbers[at] as int % funcs.len() as int]];
        lemma_args_rest(g, func.inputs_type@, func.inputs_type@.len() as int, at + 1);
    }
}

proof fn lemma_args_rest(g: SqlGenerator, types: Seq<DataTypeName>, n: int, at: int)
    ensures
        args_generated(g, types, n, at) matches Some((args, rest)) ==> {
            &&& at <= rest <= g.draws.numbers@.len()
            &&& args.len() == if n <= 0 {
                0
            } else {
                n
            }
        },
    decreases g.draws.numbers@.len() - at, n,
{
    if at <= g.draws.numbers@.len() && n > 0 {
        lemma_args_rest(g, types, n - 1, at);
        if let Some((args, rest)) = args_generated(g, types, n - 1, at) {
            if rest >= at {
                lemma_rest(g, types[n - 1], rest);
            }
        }
    }
}

proof fn lemma_returning(funcs: Seq<FuncSign>, ret: DataTypeName, n: int)
    requires
        0 <= n <= funcs.len(),
    ensures
        returning(funcs, ret, n).len() <= n,
        forall|k: int| 0 <= k < returning(funcs, ret, n).len() ==> 0 <= #[trigger] returning(funcs, ret, n)[k] < n,
    decreases n,
{
    if n > 0 {
        lemma_returning(funcs, ret, n - 1);
    }
}

/// A drawn letter or digit.
fn drawn_char(number: u64) -> (r: char)
    ensures
        r == alphanumeric((number % 62) as nat),
{
    let n: u8 = (number % 62) as u8;
    if n < 26 {
        (65u8 + n) as char
    } else if n < 52 {
        (97u8 + (n - 26)) as char
    } else {
        (48u8 + (n - 52)) as char
    }
}


/// What is made is what is wanted.
pub open spec fn makes(made: Option<(Expr, usize)>, want: Option<(ExprView, int)>) -> bool {
    match want {
        None => made is None,
        Some((e, rest)) => made matches Some(m) && expr_view(m.0) == e && m.1 == rest,
    }
}

impl SqlGenerator {
    /// An expression of the type, made of the drawn numbers from `at` on; none if they
    /// do not suffice.
    pub fn gen_expr(&self, typ: DataTypeName, at: usize) -> (r: Option<(Expr, usize)>)
        ensures
            makes(r, generated(*self, typ, at as int)),
        decreases self.draws.numbers@.len() - at, 0int,
    {
        let n: usize = self.draws.numbers.len();
        if at >= n {
            return None;
        }
        if self.draws.numbers[at] % 100 <= 49 {
            self.gen_func(typ, at + 1)
        } else {
            self.gen_simple_scalar(typ, at + 1)
        }
    }

    /// The functions that return the type, by their positions.
    fn funcs_returning(&self, ret: DataTypeName) -> (r: Vec<usize>)
        ensures
            r@.len() == returning(self.funcs@, ret, self.funcs@.len() as int).len(),
            forall|k: int|
                0 <= k < r@.len() ==> #[trigger] r@[k] == returning(self.funcs@, ret, self.funcs@.len() as int)[k],
    {
        let mut r: Vec<usize> = Vec::new();
        let mut i: usize = 0;
        while i < self.funcs.len()
            invariant
                i <= self.funcs@.len(),
                r@.len() == returning(self.funcs@, ret, i as int).len(),
                forall|k: int| 0 <= k < r@.len() ==> #[trigger] r@[k] == returning(self.funcs@, ret, i as int)[k],
            decreases self.funcs@.len() - i,
        {
            if self.funcs[i].ret_type == ret {
                r.push(i);
            }
            i = i + 1;
        }
        r
    }

    /// A call of a function that returns the type.
    pub fn gen_func(&self, ret: DataTypeName, at: usize) -> (r: Option<(Expr, usize)>)
        ensures
            makes(r, func_generated(*self, ret, at as int)),
        decreases self.draws.numbers@.len() - at, 0int,
    {
        let funcs = self.funcs_returning(ret);
        let n: usize = self.draws.numbers.len();
        if funcs.len() == 0 {
            return Some((sql_null(), at));
        }
        if at >= n {
            return None;
        }
        proof {
            lemma_returning(self.funcs@, ret, self.funcs@.len() as int);
        }
        let count: u64 = funcs.len() as u64;
        let pick: usize = (self.draws.numbers[at] % count) as usize;
        let f: usize = funcs[pick];
        let ghost func = self.funcs@[f as int];
        let ghost types = func.inputs_type@;
        let mut exprs: Vec<Expr> = Vec::new();
        let mut rest: usize = at + 1;
        let mut i: usize = 0;
        proof {
            assert(expr_views(exprs@) =~= Seq::empty());
        }
        let ghost result = func_generated(*self, ret, at as int);
        while i < self.funcs[f].inputs_type.len()
            invariant
                result == func_generated(*self, ret, at as int),
                result == match args_generated(*self, types, types.len() as int, at + 1) {
                    None => None,
                    Some((args, rest)) => if args.len() == 2 {
                        Some((bin_op(func.func, args[0], args[1]), rest))
                    } else {
                        Some((ExprView::Null, rest))
                    },
                },
                f < self.funcs@.len(),
                func == self.funcs@[f as int],
                types == func.inputs_type@,
                i <= types.len(),
                at < n,
                n == self.draws.numbers@.len(),
                at + 1 <= rest <= n,
                args_generated(*self, types, i as int, at + 1) == Some((expr_views(exprs@), rest as int)),
            decreases types.len() - i,
        {
            proof {
                assert(args_generated(*self, types, i + 1, at + 1) == match generated(*self, types[i as int], rest as int) {
                    None => None,
                    Some((e, last)) => Some((expr_views(exprs@).push(e), last)),
                });
                lemma_rest(*self, types[i as int], rest as int);
            }
            let ghost before = exprs@;
            match self.gen_expr(self.funcs[f].inputs_type[i], rest) {
                None => {
                    proof {
                        lemma_args_stop(*self, types, i + 1, types.len() as int, at + 1);
                    }
                    return None;
                },
                Some((e, last)) => {
                    exprs.push(e);
                    rest = last;
                    proof {
                        assert(expr_views(exprs@) =~= expr_views(before).push(expr_view(e)));
                    }
                },
            }
            i = i + 1;
        }
        if exprs.len() == 2 {
            let ghost views = expr_views(exprs@);
            let right = exprs.remove(1);
            let left = exprs.remove(0);
            proof {
                assert(views[0] == expr_view(left) && views[1] == expr_view(right));
            }
            Some((make_bin_op(self.funcs[f].func, left, right), rest))
        } else {
            Some((sql_null(), rest))
        }
    }

    /// A constant of the type.
    pub fn gen_simple_scalar(&self, typ: DataTypeName, at: usize) -> (r: Option<(Expr, usize)>)
        ensures
            makes(
                r,
                if at + draws_of(typ) > self.draws.numbers@.len() {
                    None
                } else {
                    match scalar(typ, self.draws, at as int) {
                        Some(e) => Some((e, at + draws_of(typ))),
                        None => None,
                    }
                },
            ),
    {
        let n: usize = self.draws.numbers.len();
        match typ {
            DataTypeName::Struct | DataTypeName::List => {
                if at > n {
                    return None;
                }
                return Some((sql_null(), at));
            },
            DataTypeName::Varchar => {
                if at > n || n - at < 10 {
                    return None;
                }
                return Some((Expr::Constant(Constant::SingleQuotedString(self.gen_text(at))), at + 10));
            },
            _ => {},
        }
        if at >= n {
            return None;
        }
        let number: u64 = self.draws.numbers[at];
        let e = match typ {
            DataTypeName::Int16 | DataTypeName::Int32 | DataTypeName::Int64 => Expr::Constant(
                Constant::Number(decimal_text(number % 100)),
            ),
            DataTypeName::Decimal | DataTypeName::Float32 | DataTypeName::Float64 => {
                if self.draws.fractions.len() == 0 {
                    return None;
                }
                let count: u64 = self.draws.fractions.len() as u64;
                let pick: usize = (number % count) as usize;
                Expr::Constant(Constant::Number(self.draws.fractions[pick].clone()))
            },
            DataTypeName::Boolean => Expr::Constant(Constant::Boolean(number % 2 == 1)),
            DataTypeName::Date => match self.gen_temporal_scalar(typ, number % 1_000_000) {
                Some(value) => Expr::TypedString { data_type: TypedKind::Date, value },
                None => {
                    return None;
                },
            },
            DataTypeName::Time => match self.gen_temporal_scalar(typ, number % 1_000_000) {
                Some(value) => Expr::TypedString { data_type: TypedKind::Time, value },
                None => {
                    return None;
                },
            },
            DataTypeName::Interval => match self.gen_temporal_scalar(typ, number % 1_000_000) {
                Some(value) => Expr::TypedString { data_type: TypedKind::Interval, value },
                None => {
                    return None;
                },
            },
            _ => match self.gen_temporal_scalar(typ, number % 1_000_000) {
                Some(value) => Expr::TypedString { data_type: TypedKind::Timestamp, value },
                None => {
                    return None;
                },
            },
        };
        Some((e, at + 1))
    }

    /// Ten drawn letters and digits.
    fn gen_text(&self, at: usize) -> (r: String)
        requires
            at + 10 <= self.draws.numbers@.len(),
        ensures
            r@ == drawn_text(self.draws.numbers@, at as int, 10),
    {
        let n: usize = self.draws.numbers.len();
        let mut chars: Vec<char> = Vec::new();
        let mut i: usize = 0;
        while i < 10
            invariant
                i <= 10,
                at + 10 <= n,
                n == self.draws.numbers@.len(),
                chars@ == drawn_text(self.draws.numbers@, at as int, i as int),
            decreases 10 - i,
        {
            chars.push(drawn_char(self.draws.numbers[at + i]));
            i = i + 1;
        }
        chars_to_string(&chars)
    }

    /// A time before now, or a number of seconds, as text.
    pub fn gen_temporal_scalar(&self, typ: DataTypeName, secs: u64) -> (r: Option<String>)
        requires
            secs < 1_000_000,
        ensures
            temporal(typ, self.draws, secs) == match r {
                Some(s) => Some(s@),
                None => None,
            },
    {
        let at: i64 = self.draws.now_secs as i64 - secs as i64;
        let nanos: u32 = self.draws.now_nanos;
        match typ {
            DataTypeName::Date => chrono_format(at, nanos, "%F"),
            DataTypeName::Timestamp | DataTypeName::Timestampz => chrono_format(at, nanos, "%Y-%m-%d %H:%M:%S"),
            DataTypeName::Time => chrono_format(at, nanos, "%T"),
            _ => Some(decimal_text(secs)),
        }
    }
}

proof fn lemma_args_stop(g: SqlGenerator, types: Seq<DataTypeName>, i: int, n: int, at: int)
    requires
        0 <= i <= n,
        args_generated(g, types, i, at) is None,
    ensures
        args_generated(g, types, n, at) is None,
    decreases n,
{
    if i < n {
        lemma_args_stop(g, types, i, n - 1, at);
    }
}

/// `String::from_iter` of characters gives the string of them in their order.
#[verifier::external_body]
fn chars_to_string(chars: &Vec<char>) -> (r: String)
    ensures
        r@ == chars@,
{
    String::from_iter(chars.as_slice())
}

/// A constant of a whole-number type is below one hundred, and one of a string type
/// has ten characters.
pub proof fn law_scalar_shapes(draws: Draws, at: int)
    ensures
        scalar(DataTypeName::Int32, draws, at) == Some(
            ExprView::Number(decimal((draws.numbers@[at] % 100) as nat)),
        ),
        scalar(DataTypeName::Varchar, draws, at) matches Some(ExprView::Text(text)) && text.len() == 10,
{
    reveal_with_fuel(drawn_text, 11);
}

/// The operator that is written for a function of arithmetic is the one that stands for this function.
pub proof fn law_operators_are_bound_back(func: ExprType)
    ensures
        func == ExprType::Add || func == ExprType::Subtract || func == ExprType::Multiply || func == ExprType::Divide || func
            == ExprType::Modulus ==> operator_of(func) is Some && crate::frontend::operators::function_of(
            operator_of(func)->0,
        ) == Some(func),
        operator_of(ExprType::GreaterThan) == Some(BinaryOperator::Gt),
        operator_of(ExprType::GreaterThanOrEqual) == Some(BinaryOperator::GtEq),
        operator_of(ExprType::LessThan) == Some(BinaryOperator::Lt),
        operator_of(ExprType::LessThanOrEqual) == Some(BinaryOperator::LtEq),
        operator_of(ExprType::Equal) == Some(BinaryOperator::Eq),
        operator_of(ExprType::NotEqual) == Some(BinaryOperator::NotEq),
        operator_of(ExprType::And) == Some(BinaryOperator::And),
        operator_of(ExprType::Or) == Some(BinaryOperator::Or),
        operator_of(ExprType::Like) == Some(BinaryOperator::Like),
{
}

/// Two functions are never written with one operator.
pub proof fn law_operators_differ(a: ExprType, b: ExprType)
    requires
        operator_of(a) is Some,
        operator_of(a) == operator_of(b),
    ensures
        a == b,
{
}

/// The functions to draw from are those that return the type, all of them, in their order.
pub proof fn law_functions_return_the_type(funcs: Seq<FuncSign>, ret: DataTypeName, n: int)
    requires
        0 <= n <= funcs.len(),
    ensures
        ({
            let list = returning(funcs, ret, n);
            &&& forall|i: int, j: int| 0 <= i < j < list.len() ==> (#[trigger] list[i]) < (#[trigger] list[j])
            &&& forall|i: int| #[trigger] list.contains(i) <==> 0 <= i < n && funcs[i].ret_type == ret
        }),
    decreases n,
{
    let list = returning(funcs, ret, n);
    if n > 0 {
        law_functions_return_the_type(funcs, ret, n - 1);
        lemma_returning(funcs, ret, n - 1);
        let before = returning(funcs, ret, n - 1);
        assert forall|i: int| #[trigger] list.contains(i) <==> 0 <= i < n && funcs[i].ret_type == ret by {
            if funcs[n - 1].ret_type == ret {
                vstd::seq_lib::lemma_seq_contains_after_push(before, n - 1, i);
            }
            assert(before.contains(i) <==> 0 <= i < n - 1 && funcs[i].ret_type == ret);
        }
    }
}

/// A call is written with its two arguments from left to right; without a function of the type, or with
/// one of another number of arguments, NULL is written.
pub proof fn law_calls_are_binary(g: SqlGenerator, ret: DataTypeName, at: int)
    requires
        func_generated(g, ret, at) is Some,
    ensures
        ({
            let (e, rest) = func_generated(g, ret, at)->0;
            let funcs = returning(g.funcs@, ret, g.funcs@.len() as int);
            &&& funcs.len() == 0 ==> e == ExprView::Null && rest == at
            &&& funcs.len() > 0 ==> {
                let func = g.funcs@[funcs[g.draws.numbers@[at] as int % funcs.len() as int]];
                let args = args_generated(g, func.inputs_type@, func.inputs_type@.len() as int, at + 1);
                &&& args matches Some((list, last)) && last == rest
                &&& func.inputs_type@.len() != 2 ==> e == ExprView::Null
                &&& func.inputs_type@.len() == 2 ==> (operator_of(func.func) matches Some(op) ==> e == ExprView::BinaryOp(
                    Box::new((args->0).0[0]),
                    op,
                    Box::new((args->0).0[1]),
                ))
            }
        }),
{
    let funcs = returning(g.funcs@, ret, g.funcs@.len() as int);
    if funcs.len() > 0 {
        let func = g.funcs@[funcs[g.draws.numbers@[at] as int % funcs.len() as int]];
        lemma_args_rest(g, func.inputs_type@, func.inputs_type@.len() as int, at + 1);
    }
}

} // verus!
