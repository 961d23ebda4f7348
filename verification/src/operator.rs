//! Operators: boolean predicates over accessor results.
//!
//! A configured [`Operator`] holds raw values whose strings are
//! templates; compiling it builds accessors and regular expressions,
//! and the compiled form is evaluated against an event.

use vstd::prelude::*;
use crate::accessor::{Accessor, AccessorBuilder, PartModel, eval_parts, spec_parse_template};
use crate::error::MatcherError;
use crate::model::{Event, EventModel, ExtractedVars};
use crate::regex_support::{CompiledRegex, regex_valid, regex_is_match};
use crate::text::{chars_contain, contains_sub, lex_lt, lower_of, str_lt, to_chars, to_lowercase};
use crate::value::{Model, Value, value_eq};

verus! {

/// A configured operator: the shape found in a rule's `WHERE` clause.
/// String operands are templates; other values are constants.
#[derive(Debug, PartialEq)]
pub enum Operator {
    And { operators: Vec<Operator> },
    Or { operators: Vec<Operator> },
    Not { operator: Box<Operator> },
    Equal { first: Value, second: Value },
    NotEqual { first: Value, second: Value },
    GreaterEqual { first: Value, second: Value },
    LessEqual { first: Value, second: Value },
    Greater { first: Value, second: Value },
    Less { first: Value, second: Value },
    Contains { first: Value, second: Value },
    ContainsIgnoreCase { first: Value, second: Value },
    Regex { regex: String, target: String },
}

/// The mirror of an [`Operator`].
pub enum OperatorModel {
    And(Seq<OperatorModel>),
    Or(Seq<OperatorModel>),
    Not(Box<OperatorModel>),
    Equal(Model, Model),
    NotEqual(Model, Model),
    GreaterEqual(Model, Model),
    LessEqual(Model, Model),
    Greater(Model, Model),
    Less(Model, Model),
    Contains(Model, Model),
    ContainsIgnoreCase(Model, Model),
    Regex(Seq<char>, Seq<char>),
}

/// The mirror of a sequence of operators.
pub open spec fn op_models(ops: Seq<Operator>) -> Seq<OperatorModel>
    decreases ops,
{
    if ops.len() == 0 {
        Seq::empty()
    } else {
        seq![ops[0].model()] + op_models(ops.subrange(1, ops.len() as int))
    }
}

pub broadcast proof fn lemma_op_models_len(ops: Seq<Operator>)
    ensures
        #[trigger] op_models(ops).len() == ops.len(),
    decreases ops,
{
    if ops.len() > 0 {
        lemma_op_models_len(ops.subrange(1, ops.len() as int));
    }
}

pub broadcast proof fn lemma_op_models_index(ops: Seq<Operator>, i: int)
    requires
        0 <= i < ops.len(),
    ensures
        #[trigger] op_models(ops)[i] == ops[i].model(),
    decreases ops,
{
    lemma_op_models_len(ops);
    if i > 0 {
        lemma_op_models_index(ops.subrange(1, ops.len() as int), i - 1);
    }
}

impl Operator {
    /// The mirror of this operator.
    pub open spec fn model(self) -> OperatorModel
        decreases self,
    {
        match self {
            Operator::And { operators } => OperatorModel::And(op_models(operators@)),
            Operator::Or { operators } => OperatorModel::Or(op_models(operators@)),
            Operator::Not { operator } => OperatorModel::Not(Box::new((*operator).model())),
            Operator::Equal { first, second } => OperatorModel::Equal(
                first.model(),
                second.model(),
            ),
            Operator::NotEqual { first, second } => OperatorModel::NotEqual(
                first.model(),
                second.model(),
            ),
            Operator::GreaterEqual { first, second } => OperatorModel::GreaterEqual(
                first.model(),
                second.model(),
            ),
            Operator::LessEqual { first, second } => OperatorModel::LessEqual(
                first.model(),
                second.model(),
            ),
            Operator::Greater { first, second } => OperatorModel::Greater(
                first.model(),
                second.model(),
            ),
            Operator::Less { first, second } => OperatorModel::Less(first.model(), second.model()),
            Operator::Contains { first, second } => OperatorModel::Contains(
                first.model(),
                second.model(),
            ),
            Operator::ContainsIgnoreCase { first, second } => OperatorModel::ContainsIgnoreCase(
                first.model(),
                second.model(),
            ),
            Operator::Regex { regex, target } => OperatorModel::Regex(regex@, target@),
        }
    }
}

/// A compiled operand: a constant value, or a template to evaluate.
#[derive(Debug)]
pub enum Operand {
    Constant(Value),
    Template(Accessor),
}

/// The mirror of an [`Operand`].
pub enum OperandModel {
    Constant(Model),
    Template(Seq<PartModel>),
}

impl Operand {
    /// The mirror of this operand.
    pub open spec fn model(self) -> OperandModel {
        match self {
            Operand::Constant(v) => OperandModel::Constant(v.model()),
            Operand::Template(a) => OperandModel::Template(a.model()),
        }
    }
}

/// An operator compiled for evaluation.
#[derive(Debug)]
pub enum CompiledOperator {
    And(Vec<CompiledOperator>),
    Or(Vec<CompiledOperator>),
    Not(Box<CompiledOperator>),
    Equal(Operand, Operand),
    NotEqual(Operand, Operand),
    GreaterEqual(Operand, Operand),
    LessEqual(Operand, Operand),
    Greater(Operand, Operand),
    Less(Operand, Operand),
    Contains(Operand, Operand),
    ContainsIgnoreCase(Operand, Operand),
    Regex { regex: CompiledRegex, target: Accessor },
}

/// The mirror of a [`CompiledOperator`].
pub enum CompiledOpModel {
    And(Seq<CompiledOpModel>),
    Or(Seq<CompiledOpModel>),
    Not(Box<CompiledOpModel>),
    Equal(OperandModel, OperandModel),
    NotEqual(OperandModel, OperandModel),
    GreaterEqual(OperandModel, OperandModel),
    LessEqual(OperandModel, OperandModel),
    Greater(OperandModel, OperandModel),
    Less(OperandModel, OperandModel),
    Contains(OperandModel, OperandModel),
    ContainsIgnoreCase(OperandModel, OperandModel),
    Regex(Seq<char>, Seq<PartModel>),
}

/// The mirror of a sequence of compiled operators.
pub open spec fn cop_models(ops: Seq<CompiledOperator>) -> Seq<CompiledOpModel>
    decreases ops,
{
    if ops.len() == 0 {
        Seq::empty()
    } else {
        seq![ops[0].model()] + cop_models(ops.subrange(1, ops.len() as int))
    }
}

pub broadcast proof fn lemma_cop_models_len(ops: Seq<CompiledOperator>)
    ensures
        #[trigger] cop_models(ops).len() == ops.len(),
    decreases ops,
{
    if ops.len() > 0 {
        lemma_cop_models_len(ops.subrange(1, ops.len() as int));
    }
}

pub broadcast proof fn lemma_cop_models_index(ops: Seq<CompiledOperator>, i: int)
    requires
        0 <= i < ops.len(),
    ensures
        #[trigger] cop_models(ops)[i] == ops[i].model(),
    decreases ops,
{
    lemma_cop_models_len(ops);
    if i > 0 {
        lemma_cop_models_index(ops.subrange(1, ops.len() as int), i - 1);
    }
}

impl CompiledOperator {
    /// The mirror of this compiled operator.
    pub open spec fn model(self) -> CompiledOpModel
        decreases self,
    {
        match self {
            CompiledOperator::And(ops) => CompiledOpModel::And(cop_models(ops@)),
            CompiledOperator::Or(ops) => CompiledOpModel::Or(cop_models(ops@)),
            CompiledOperator::Not(op) => CompiledOpModel::Not(Box::new((*op).model())),
            CompiledOperator::Equal(a, b) => CompiledOpModel::Equal(a.model(), b.model()),
            CompiledOperator::NotEqual(a, b) => CompiledOpModel::NotEqual(a.model(), b.model()),
            CompiledOperator::GreaterEqual(a, b) => CompiledOpModel::GreaterEqual(
                a.model(),
                b.model(),
            ),
            CompiledOperator::LessEqual(a, b) => CompiledOpModel::LessEqual(a.model(), b.model()),
            CompiledOperator::Greater(a, b) => CompiledOpModel::Greater(a.model(), b.model()),
            CompiledOperator::Less(a, b) => CompiledOpModel::Less(a.model(), b.model()),
            CompiledOperator::Contains(a, b) => CompiledOpModel::Contains(a.model(), b.model()),
            CompiledOperator::ContainsIgnoreCase(a, b) => CompiledOpModel::ContainsIgnoreCase(
                a.model(),
                b.model(),
            ),
            CompiledOperator::Regex { regex, target } => CompiledOpModel::Regex(
                regex.pattern_view(),
                target.model(),
            ),
        }
    }
}

// ---------------------------------------------------------------------
// Compilation
// ---------------------------------------------------------------------

/// Compiles one operand: a string becomes a template, any other value a
/// constant; an unparsable template spoils the compilation.
pub open spec fn compile_operand(v: Model) -> Option<OperandModel> {
    match v {
        Model::Str(s) => match spec_parse_template(s) {
            Some(parts) => Some(OperandModel::Template(parts)),
            None => None,
        },
        _ => Some(OperandModel::Constant(v)),
    }
}

/// Compiles an operator: accessors are parsed and the regular
/// expression is compiled; any failure spoils the compilation.
pub open spec fn compile_op(op: OperatorModel) -> Option<CompiledOpModel>
    decreases op, 0int, 0int,
{
    match op {
        OperatorModel::And(ops) => match compile_ops(ops) {
            Some(cs) => Some(CompiledOpModel::And(cs)),
            None => None,
        },
        OperatorModel::Or(ops) => match compile_ops(ops) {
            Some(cs) => Some(CompiledOpModel::Or(cs)),
            None => None,
        },
        OperatorModel::Not(inner) => match compile_op(*inner) {
            Some(c) => Some(CompiledOpModel::Not(Box::new(c))),
            None => None,
        },
        OperatorModel::Equal(a, b) => match (compile_operand(a), compile_operand(b)) {
            (Some(x), Some(y)) => Some(CompiledOpModel::Equal(x, y)),
            _ => None,
        },
        OperatorModel::NotEqual(a, b) => match (compile_operand(a), compile_operand(b)) {
            (Some(x), Some(y)) => Some(CompiledOpModel::NotEqual(x, y)),
            _ => None,
        },
        OperatorModel::GreaterEqual(a, b) => match (compile_operand(a), compile_operand(b)) {
            (Some(x), Some(y)) => Some(CompiledOpModel::GreaterEqual(x, y)),
            _ => None,
        },
        OperatorModel::LessEqual(a, b) => match (compile_operand(a), compile_operand(b)) {
            (Some(x), Some(y)) => Some(CompiledOpModel::LessEqual(x, y)),
            _ => None,
        },
        OperatorModel::Greater(a, b) => match (compile_operand(a), compile_operand(b)) {
            (Some(x), Some(y)) => Some(CompiledOpModel::Greater(x, y)),
            _ => None,
        },
        OperatorModel::Less(a, b) => match (compile_operand(a), compile_operand(b)) {
            (Some(x), Some(y)) => Some(CompiledOpModel::Less(x, y)),
            _ => None,
        },
        OperatorModel::Contains(a, b) => match (compile_operand(a), compile_operand(b)) {
            (Some(x), Some(y)) => Some(CompiledOpModel::Contains(x, y)),
            _ => None,
        },
        OperatorModel::ContainsIgnoreCase(a, b) => match (compile_operand(a), compile_operand(
            b,
        )) {
            (Some(x), Some(y)) => Some(CompiledOpModel::ContainsIgnoreCase(x, y)),
            _ => None,
        },
        OperatorModel::Regex(pattern, target) => {
            if regex_valid(pattern) {
                match spec_parse_template(target) {
                    Some(parts) => Some(CompiledOpModel::Regex(pattern, parts)),
                    None => None,
                }
            } else {
                None
            }
        },
    }
}

/// Compiles the operators from position `i` on; any failure spoils the
/// whole sequence.
pub open spec fn compile_ops_from(ops: Seq<OperatorModel>, i: int) -> Option<
    Seq<CompiledOpModel>,
>
    decreases ops, 1int, ops.len() - i,
{
    if i < 0 {
        None
    } else if i >= ops.len() {
        Some(Seq::empty())
    } else {
        match compile_op(ops[i]) {
            Some(c) => match compile_ops_from(ops, i + 1) {
                Some(rest) => Some(seq![c] + rest),
                None => None,
            },
            None => None,
        }
    }
}

/// Compiles a sequence of operators; any failure spoils the whole
/// sequence.
pub open spec fn compile_ops(ops: Seq<OperatorModel>) -> Option<Seq<CompiledOpModel>>
    decreases ops, 1int, ops.len() + 1,
{
    compile_ops_from(ops, 0)
}

// ---------------------------------------------------------------------
// Evaluation
// ---------------------------------------------------------------------

/// The value of an operand: the constant itself, or the template's
/// result.
pub open spec fn eval_operand(
    o: OperandModel,
    ev: EventModel,
    vars: Seq<(Seq<char>, Seq<char>, Model)>,
) -> Option<Model> {
    match o {
        OperandModel::Constant(m) => Some(m),
        OperandModel::Template(parts) => eval_parts(parts, ev, vars),
    }
}

/// Whether both operands resolve to values in the same ordered kind —
/// two numbers or two strings — and `a` comes strictly before `b`.
pub open spec fn ordered_lt(a: Option<Model>, b: Option<Model>) -> bool {
    match (a, b) {
        (Some(Model::Int(x)), Some(Model::Int(y))) => x < y,
        (Some(Model::Str(x)), Some(Model::Str(y))) => lex_lt(x, y),
        _ => false,
    }
}

/// Whether both operands resolve to values in the same ordered kind and
/// are equal.
pub open spec fn ordered_eq(a: Option<Model>, b: Option<Model>) -> bool {
    match (a, b) {
        (Some(Model::Int(x)), Some(Model::Int(y))) => x == y,
        (Some(Model::Str(x)), Some(Model::Str(y))) => x == y,
        _ => false,
    }
}

/// The truth value of a compiled operator against an event. Comparisons
/// on a missing value are false; they never fail.
pub open spec fn eval_op(
    c: CompiledOpModel,
    ev: EventModel,
    vars: Seq<(Seq<char>, Seq<char>, Model)>,
) -> bool
    decreases c, 0int, 0int,
{
    match c {
        CompiledOpModel::And(ops) => eval_all(ops, ev, vars, 0),
        CompiledOpModel::Or(ops) => eval_any(ops, ev, vars, 0),
        CompiledOpModel::Not(inner) => !eval_op(*inner, ev, vars),
        CompiledOpModel::Equal(a, b) => match (eval_operand(a, ev, vars), eval_operand(
            b,
            ev,
            vars,
        )) {
            (Some(x), Some(y)) => x == y,
            _ => false,
        },
        CompiledOpModel::NotEqual(a, b) => match (eval_operand(a, ev, vars), eval_operand(
            b,
            ev,
            vars,
        )) {
            (Some(x), Some(y)) => x != y,
            _ => false,
        },
        CompiledOpModel::GreaterEqual(a, b) => {
            let x = eval_operand(a, ev, vars);
            let y = eval_operand(b, ev, vars);
            ordered_lt(y, x) || ordered_eq(x, y)
        },
        CompiledOpModel::LessEqual(a, b) => {
            let x = eval_operand(a, ev, vars);
            let y = eval_operand(b, ev, vars);
            ordered_lt(x, y) || ordered_eq(x, y)
        },
        CompiledOpModel::Greater(a, b) => {
            let x = eval_operand(a, ev, vars);
            let y = eval_operand(b, ev, vars);
            ordered_lt(y, x)
        },
        CompiledOpModel::Less(a, b) => {
            let x = eval_operand(a, ev, vars);
            let y = eval_operand(b, ev, vars);
            ordered_lt(x, y)
        },
        CompiledOpModel::Contains(a, b) => match (eval_operand(a, ev, vars), eval_operand(
            b,
            ev,
            vars,
        )) {
            (Some(Model::Str(text)), Some(Model::Str(sub))) => contains_sub(text, sub),
            _ => false,
        },
        CompiledOpModel::ContainsIgnoreCase(a, b) => match (eval_operand(a, ev, vars), eval_operand(
            b,
            ev,
            vars,
        )) {
            (Some(Model::Str(text)), Some(Model::Str(sub))) => contains_sub(
                lower_of(text),
                lower_of(sub),
            ),
            _ => false,
        },
        CompiledOpModel::Regex(pattern, target) => match eval_parts(target, ev, vars) {
            Some(Model::Str(text)) => regex_is_match(pattern, text),
            _ => false,
        },
    }
}

/// Whether all operators from position `i` on hold.
pub open spec fn eval_all(
    ops: Seq<CompiledOpModel>,
    ev: EventModel,
    vars: Seq<(Seq<char>, Seq<char>, Model)>,
    i: int,
) -> bool
    decreases ops, 1int, ops.len() - i,
{
    if i < 0 || i >= ops.len() {
        true
    } else {
        eval_op(ops[i], ev, vars) && eval_all(ops, ev, vars, i + 1)
    }
}

fn build_operand(v: &Value) -> (r: Result<Operand, MatcherError>)
    ensures
        match r {
            Ok(o) => compile_operand(v.model()) == Some(o.model()),
            Err(_) => compile_operand(v.model()) is None,
        },
{
    match v {
        Value::Str(s) => match AccessorBuilder::new().build("", s.as_str()) {
            Ok(acc) => Ok(Operand::Template(acc)),
            Err(e) => Err(e),
        },
        _ => Ok(Operand::Constant(v.deep_clone())),
    }
}

fn build_ops(ops: &Vec<Operator>, i: usize) -> (r: Result<Vec<CompiledOperator>, MatcherError>)
    requires
        i <= ops@.len(),
    ensures
        match r {
            Ok(cs) => compile_ops_from(op_models(ops@), i as int) == Some(cop_models(cs@)),
            Err(_) => compile_ops_from(op_models(ops@), i as int) is None,
        },
    decreases ops@, 1int, ops@.len() - i,
{
    proof {
        lemma_op_models_len(ops@);
    }
    if i == ops.len() {
        let v: Vec<CompiledOperator> = Vec::new();
        proof {
            assert(cop_models(v@) =~= Seq::<CompiledOpModel>::empty());
        }
        return Ok(v);
    }
    proof {
        lemma_op_models_index(ops@, i as int);
    }
    match ops[i].build() {
        Err(e) => Err(e),
        Ok(c) => match build_ops(ops, i + 1) {
            Err(e) => Err(e),
            Ok(mut rest) => {
                let ghost prev = rest@;
                rest.insert(0, c);
                proof {
                    assert(rest@.subrange(1, rest@.len() as int) =~= prev);
                }
                Ok(rest)
            },
        },
    }
}

impl Operator {
    /// Compiles this operator: templates are parsed into accessors and
    /// the regular expression is compiled.
    #[verifier::rlimit(60)]
    pub fn build(&self) -> (r: Result<CompiledOperator, MatcherError>)
        ensures
            match r {
                Ok(c) => compile_op(self.model()) == Some(c.model()),
                Err(_) => compile_op(self.model()) is None,
            },
        decreases self, 0int, 0int,
    {
        match self {
            Operator::And { operators } => {
                proof {
                    assert(compile_ops(op_models(operators@)) == compile_ops_from(
                        op_models(operators@),
                        0,
                    ));
                }
                match build_ops(operators, 0) {
                    Ok(cs) => Ok(CompiledOperator::And(cs)),
                    Err(e) => Err(e),
                }
            },
            Operator::Or { operators } => {
                proof {
                    assert(compile_ops(op_models(operators@)) == compile_ops_from(
                        op_models(operators@),
                        0,
                    ));
                }
                match build_ops(operators, 0) {
                    Ok(cs) => Ok(CompiledOperator::Or(cs)),
                    Err(e) => Err(e),
                }
            },
            Operator::Not { operator } => match operator.build() {
                Ok(c) => Ok(CompiledOperator::Not(Box::new(c))),
                Err(e) => Err(e),
            },
            Operator::Equal { first, second } => match (build_operand(first), build_operand(
                second,
            )) {
                (Ok(a), Ok(b)) => Ok(CompiledOperator::Equal(a, b)),
                (Err(e), _) => Err(e),
                (_, Err(e)) => Err(e),
            },
            Operator::NotEqual { first, second } => match (build_operand(first), build_operand(
                second,
            )) {
                (Ok(a), Ok(b)) => Ok(CompiledOperator::NotEqual(a, b)),
                (Err(e), _) => Err(e),
                (_, Err(e)) => Err(e),
            },
            Operator::GreaterEqual { first, second } => match (build_operand(first), build_operand(
                second,
            )) {
                (Ok(a), Ok(b)) => Ok(CompiledOperator::GreaterEqual(a, b)),
                (Err(e), _) => Err(e),
                (_, Err(e)) => Err(e),
            },
            Operator::LessEqual { first, second } => match (build_operand(first), build_operand(
                second,
            )) {
                (Ok(a), Ok(b)) => Ok(CompiledOperator::LessEqual(a, b)),
                (Err(e), _) => Err(e),
                (_, Err(e)) => Err(e),
            },
            Operator::Greater { first, second } => match (build_operand(first), build_operand(
                second,
            )) {
                (Ok(a), Ok(b)) => Ok(CompiledOperator::Greater(a, b)),
                (Err(e), _) => Err(e),
                (_, Err(e)) => Err(e),
            },
            Operator::Less { first, second } => match (build_operand(first), build_operand(
                second,
            )) {
                (Ok(a), Ok(b)) => Ok(CompiledOperator::Less(a, b)),
                (Err(e), _) => Err(e),
                (_, Err(e)) => Err(e),
            },
            Operator::Contains { first, second } => match (build_operand(first), build_operand(
                second,
            )) {
                (Ok(a), Ok(b)) => Ok(CompiledOperator::Contains(a, b)),
                (Err(e), _) => Err(e),
                (_, Err(e)) => Err(e),
            },
            Operator::ContainsIgnoreCase { first, second } => match (build_operand(first),
            build_operand(second)) {
                (Ok(a), Ok(b)) => Ok(CompiledOperator::ContainsIgnoreCase(a, b)),
                (Err(e), _) => Err(e),
                (_, Err(e)) => Err(e),
            },
            Operator::Regex { regex, target } => match CompiledRegex::compile(regex.as_str()) {
                None => Err(MatcherError::RegexBuildError { pattern: regex.clone() }),
                Some(re) => match AccessorBuilder::new().build("", target.as_str()) {
                    Ok(acc) => Ok(CompiledOperator::Regex { regex: re, target: acc }),
                    Err(e) => Err(e),
                },
            },
        }
    }
}

/// The mirror of an optional value.
pub open spec fn opt_model(o: Option<Value>) -> Option<Model> {
    match o {
        Some(v) => Some(v.model()),
        None => None,
    }
}

fn eval_operand_exec(o: &Operand, event: &Event, vars: &ExtractedVars) -> (r: Option<Value>)
    ensures
        opt_model(r) == eval_operand(o.model(), event.model(), vars.model()),
{
    match o {
        Operand::Constant(v) => Some(v.deep_clone()),
        Operand::Template(a) => a.get(event, vars),
    }
}

fn cmp_lt(x: &Option<Value>, y: &Option<Value>) -> (r: bool)
    ensures
        r == ordered_lt(opt_model(*x), opt_model(*y)),
{
    match (x, y) {
        (Some(Value::Int(a)), Some(Value::Int(b))) => *a < *b,
        (Some(Value::Str(a)), Some(Value::Str(b))) => str_lt(a.as_str(), b.as_str()),
        _ => false,
    }
}

fn cmp_eq(x: &Option<Value>, y: &Option<Value>) -> (r: bool)
    ensures
        r == ordered_eq(opt_model(*x), opt_model(*y)),
{
    match (x, y) {
        (Some(Value::Int(a)), Some(Value::Int(b))) => *a == *b,
        (Some(Value::Str(a)), Some(Value::Str(b))) => crate::value::str_eq(a.as_str(), b.as_str()),
        _ => false,
    }
}

fn str_contains_str(text: &String, sub: &String) -> (r: bool)
    ensures
        r == contains_sub(text@, sub@),
{
    let tc = to_chars(text.as_str());
    let sc = to_chars(sub.as_str());
    chars_contain(&tc, &sc)
}

impl CompiledOperator {
    /// The truth value of this operator against an event and its
    /// extracted variables. Evaluation never fails: a missing or
    /// mismatched value makes the comparison false.
    pub fn evaluate(&self, event: &Event, vars: &ExtractedVars) -> (r: bool)
        ensures
            r == eval_op(self.model(), event.model(), vars.model()),
        decreases self, 0int, 0int,
    {
        match self {
            CompiledOperator::And(ops) => {
                proof {
                    lemma_cop_models_len(ops@);
                }
                let n = ops.len();
                let mut i: usize = 0;
                while i < n
                    invariant
                        i <= n,
                        n == ops@.len(),
                        cop_models(ops@).len() == n,
                        *self == CompiledOperator::And(*ops),
                        eval_all(cop_models(ops@), event.model(), vars.model(), 0) == eval_all(
                            cop_models(ops@),
                            event.model(),
                            vars.model(),
                            i as int,
                        ),
                    decreases n - i,
                {
                    proof {
                        lemma_cop_models_index(ops@, i as int);
                        assert(decreases_to!(*self => self->And_0));
                        assert(decreases_to!(self->And_0 => self->And_0@));
                        assert(decreases_to!(self->And_0@ => self->And_0@[i as int]));
                    }
                    if !ops[i].evaluate(event, vars) {
                        return false;
                    }
                    i = i + 1;
                }
                true
            },
            CompiledOperator::Or(ops) => {
                proof {
                    lemma_cop_models_len(ops@);
                }
                let n = ops.len();
                let mut i: usize = 0;
                while i < n
                    invariant
                        i <= n,
                        n == ops@.len(),
                        cop_models(ops@).len() == n,
                        *self == CompiledOperator::Or(*ops),
                        eval_any(cop_models(ops@), event.model(), vars.model(), 0) == eval_any(
                            cop_models(ops@),
                            event.model(),
                            vars.model(),
                            i as int,
                        ),
                    decreases n - i,
                {
                    proof {
                        lemma_cop_models_index(ops@, i as int);
                        assert(decreases_to!(*self => self->Or_0));
                        assert(decreases_to!(self->Or_0 => self->Or_0@));
                        assert(decreases_to!(self->Or_0@ => self->Or_0@[i as int]));
                    }
                    if ops[i].evaluate(event, vars) {
                        return true;
                    }
                    i = i + 1;
                }
                false
            },
            CompiledOperator::Not(op) => !op.evaluate(event, vars),
            CompiledOperator::Equal(a, b) => {
                let x = eval_operand_exec(a, event, vars);
                let y = eval_operand_exec(b, event, vars);
                match (&x, &y) {
                    (Some(xv), Some(yv)) => value_eq(xv, yv),
                    _ => false,
                }
            },
            CompiledOperator::NotEqual(a, b) => {
                let x = eval_operand_exec(a, event, vars);
                let y = eval_operand_exec(b, event, vars);
                match (&x, &y) {
                    (Some(xv), Some(yv)) => !value_eq(xv, yv),
                    _ => false,
                }
            },
            CompiledOperator::GreaterEqual(a, b) => {
                let x = eval_operand_exec(a, event, vars);
                let y = eval_operand_exec(b, event, vars);
                cmp_lt(&y, &x) || cmp_eq(&x, &y)
            },
            CompiledOperator::LessEqual(a, b) => {
                let x = eval_operand_exec(a, event, vars);
                let y = eval_operand_exec(b, event, vars);
                cmp_lt(&x, &y) || cmp_eq(&x, &y)
            },
            CompiledOperator::Greater(a, b) => {
                let x = eval_operand_exec(a, event, vars);
                let y = eval_operand_exec(b, event, vars);
                cmp_lt(&y, &x)
            },
            CompiledOperator::Less(a, b) => {
                let x = eval_operand_exec(a, event, vars);
                let y = eval_operand_exec(b, event, vars);
                cmp_lt(&x, &y)
            },
            CompiledOperator::Contains(a, b) => {
                let x = eval_operand_exec(a, event, vars);
                let y = eval_operand_exec(b, event, vars);
                match (&x, &y) {
                    (Some(Value::Str(text)), Some(Value::Str(sub))) => str_contains_str(text, sub),
                    _ => false,
                }
            },
            CompiledOperator::ContainsIgnoreCase(a, b) => {
                let x = eval_operand_exec(a, event, vars);
                let y = eval_operand_exec(b, event, vars);
                match (&x, &y) {
                    (Some(Value::Str(text)), Some(Value::Str(sub))) => {
                        let lt = to_lowercase(text.as_str());
                        let ls = to_lowercase(sub.as_str());
                        str_contains_str(&lt, &ls)
                    },
                    _ => false,
                }
            },
            CompiledOperator::Regex { regex, target } => {
                match target.get(event, vars) {
                    Some(Value::Str(text)) => regex.is_match(text.as_str()),
                    _ => false,
                }
            },
        }
    }

    /// The configured name of this operator kind.
    pub fn name(&self) -> (r: &'static str)
        ensures
            self is And ==> r@ == "AND"@,
            self is Or ==> r@ == "OR"@,
            self is Not ==> r@ == "NOT"@,
            self is Equal ==> r@ == "equals"@,
            self is NotEqual ==> r@ == "notEquals"@,
            self is GreaterEqual ==> r@ == "ge"@,
            self is LessEqual ==> r@ == "le"@,
            self is Greater ==> r@ == "gt"@,
            self is Less ==> r@ == "lt"@,
            self is Contains ==> r@ == "contain"@,
            self is ContainsIgnoreCase ==> r@ == "containIgnoreCase"@,
            self is Regex ==> r@ == "regex"@,
    {
        match self {
            CompiledOperator::And(_) => "AND",
            CompiledOperator::Or(_) => "OR",
            CompiledOperator::Not(_) => "NOT",
            CompiledOperator::Equal(_, _) => "equals",
            CompiledOperator::NotEqual(_, _) => "notEquals",
            CompiledOperator::GreaterEqual(_, _) => "ge",
            CompiledOperator::LessEqual(_, _) => "le",
            CompiledOperator::Greater(_, _) => "gt",
            CompiledOperator::Less(_, _) => "lt",
            CompiledOperator::Contains(_, _) => "contain",
            CompiledOperator::ContainsIgnoreCase(_, _) => "containIgnoreCase",
            CompiledOperator::Regex { .. } => "regex",
        }
    }
}

/// Whether some operator from position `i` on holds.
pub open spec fn eval_any(
    ops: Seq<CompiledOpModel>,
    ev: EventModel,
    vars: Seq<(Seq<char>, Seq<char>, Model)>,
    i: int,
) -> bool
    decreases ops, 1int, ops.len() - i,
{
    if i < 0 || i >= ops.len() {
        false
    } else {
        eval_op(ops[i], ev, vars) || eval_any(ops, ev, vars, i + 1)
    }
}

} // verus!
