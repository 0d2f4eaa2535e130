//! Abstract syntax of header-filter queries, with the mathematical view of
//! each node and the outcome type of the parsers.

use vstd::prelude::*;

verus! {

/// Prefix operator of a filter.
#[derive(Debug, Clone, Copy, PartialEq, Eq, Structural)]
pub enum Unary {
    Not,
}

/// Comparison of a header value with the value(s) of the query.
#[derive(Debug, Clone, Copy, PartialEq, Eq, Structural)]
pub enum CompareOp {
    OpIs,
    OpIn,
    OpEq,
    OpNeq,
    OpGte,
    OpLte,
    OpLt,
    OpGt,
}

/// Connective between consecutive filters of a query.
#[derive(Debug, Clone, Copy, PartialEq, Eq, Structural)]
pub enum Operator {
    Or,
    And,
    Xor,
}

/// Function applied to the selected header value before comparing.
#[derive(Debug, Clone, Copy, PartialEq, Eq, Structural)]
pub enum Function {
    Length,
    Keys,
    Values,
}

impl View for Unary {
    type V = Unary;

    open spec fn view(&self) -> Unary {
        *self
    }
}

impl View for CompareOp {
    type V = CompareOp;

    open spec fn view(&self) -> CompareOp {
        *self
    }
}

impl View for Operator {
    type V = Operator;

    open spec fn view(&self) -> Operator {
        *self
    }
}

impl View for Function {
    type V = Function;

    open spec fn view(&self) -> Function {
        *self
    }
}

/// A literal value of a query. Strings are the bytes between the quotes.
#[derive(Debug, PartialEq, Eq)]
pub enum Literal {
    Boolean(bool),
    Integer(i64),
    String(Vec<u8>),
}

/// Mathematical view of a [`Literal`].
pub enum SLiteral {
    Boolean(bool),
    Integer(i64),
    String(Seq<u8>),
}

impl View for Literal {
    type V = SLiteral;

    open spec fn view(&self) -> SLiteral {
        match self {
            Literal::Boolean(b) => SLiteral::Boolean(*b),
            Literal::Integer(i) => SLiteral::Integer(*i),
            Literal::String(s) => SLiteral::String(s@),
        }
    }
}

/// Views of a sequence of values.
pub open spec fn literals_view(vs: Seq<Literal>) -> Seq<SLiteral> {
    vs.map_values(|v: Literal| v@)
}

/// Right-hand side of a comparison: a single value or a list `[v1, v2, ...]`.
#[derive(Debug, PartialEq, Eq)]
pub enum CompareValue {
    Value(Literal),
    Values(Vec<Literal>),
}

pub enum SCompareValue {
    Value(SLiteral),
    Values(Seq<SLiteral>),
}

impl View for CompareValue {
    type V = SCompareValue;

    open spec fn view(&self) -> SCompareValue {
        match self {
            CompareValue::Value(v) => SCompareValue::Value(v@),
            CompareValue::Values(vs) => SCompareValue::Values(literals_view(vs@)),
        }
    }
}

/// Which header field a filter looks at: the value at a dotted path, or a
/// function of it.
#[derive(Debug, PartialEq, Eq)]
pub enum Selector {
    Direct(Vec<u8>),
    Function(Function, Vec<u8>),
}

pub enum SSelector {
    Direct(Seq<u8>),
    Function(Function, Seq<u8>),
}

impl View for Selector {
    type V = SSelector;

    open spec fn view(&self) -> SSelector {
        match self {
            Selector::Direct(s) => SSelector::Direct(s@),
            Selector::Function(f, s) => SSelector::Function(*f, s@),
        }
    }
}

impl SSelector {
    /// The header path the selector reads.
    pub open spec fn path(self) -> Seq<u8> {
        match self {
            SSelector::Direct(s) => s,
            SSelector::Function(_, s) => s,
        }
    }

    pub open spec fn function(self) -> Option<Function> {
        match self {
            SSelector::Direct(_) => None,
            SSelector::Function(f, _) => Some(f),
        }
    }
}

impl Selector {
    /// The header path the selector reads.
    pub fn selector_str(&self) -> (res: &Vec<u8>)
        ensures
            res@ == self@.path(),
    {
        match self {
            Selector::Direct(s) => s,
            Selector::Function(_, s) => s,
        }
    }

    /// The function applied to the selected value, if any.
    pub fn function(&self) -> (res: Option<&Function>)
        ensures
            match res {
                Some(f) => self@.function() == Some(*f),
                None => self@.function() is None,
            },
    {
        match self {
            Selector::Direct(_) => None,
            Selector::Function(f, _) => Some(f),
        }
    }
}

/// One comparison `[not]selector op value`.
#[derive(Debug, PartialEq, Eq)]
pub struct Filter {
    pub unary: Option<Unary>,
    pub selector: Selector,
    pub compare_operator: CompareOp,
    pub compare_value: CompareValue,
}

pub struct SFilter {
    pub unary: Option<Unary>,
    pub selector: SSelector,
    pub compare_operator: CompareOp,
    pub compare_value: SCompareValue,
}

impl View for Filter {
    type V = SFilter;

    open spec fn view(&self) -> SFilter {
        SFilter {
            unary: self.unary,
            selector: self.selector@,
            compare_operator: self.compare_operator,
            compare_value: self.compare_value@,
        }
    }
}

/// A first filter followed by filters joined with `or`, `and`, `xor`.
#[derive(Debug, PartialEq, Eq)]
pub struct Query {
    pub filter: Filter,
    pub next_filters: Vec<(Operator, Filter)>,
}

pub struct SQuery {
    pub filter: SFilter,
    pub next_filters: Seq<(Operator, SFilter)>,
}

/// Views of the joined filters of a query.
pub open spec fn joined_view(fs: Seq<(Operator, Filter)>) -> Seq<(Operator, SFilter)> {
    fs.map_values(|p: (Operator, Filter)| (p.0, p.1@))
}

impl View for Query {
    type V = SQuery;

    open spec fn view(&self) -> SQuery {
        SQuery { filter: self.filter@, next_filters: joined_view(self.next_filters@) }
    }
}

/// Outcome of a parser on some input: the number of bytes consumed and the
/// value read; a mismatch; input that ends before the parser could decide;
/// or a number literal too large for `i64`, which stops the whole program.
#[derive(Debug, PartialEq, Eq)]
pub enum Parsed<T> {
    Done(usize, T),
    Error,
    Incomplete,
    Abort,
}

/// Mathematical outcome of a parser.
pub enum PRes<T> {
    Done(nat, T),
    Error,
    Incomplete,
    Abort,
}

impl<T: View> View for Parsed<T> {
    type V = PRes<T::V>;

    open spec fn view(&self) -> PRes<T::V> {
        match self {
            Parsed::Done(n, v) => PRes::Done(*n as nat, v@),
            Parsed::Error => PRes::Error,
            Parsed::Incomplete => PRes::Incomplete,
            Parsed::Abort => PRes::Abort,
        }
    }
}

impl<T> Parsed<T> {
    /// The consumed length and value of a successful parse.
    pub fn done(self) -> (res: Option<(usize, T)>)
        ensures
            match self {
                Parsed::Done(n, v) => res == Some((n, v)),
                _ => res is None,
            },
    {
        match self {
            Parsed::Done(n, v) => Some((n, v)),
            _ => None,
        }
    }
}

} // verus!
