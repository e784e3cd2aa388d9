//! The abstract syntax tree and its tree-walking evaluator. Expressions
//! (`Valuable`) evaluate to values without touching the store; statements
//! (`Instruction`) run against the scoped variable store. Expression
//! evaluation is specified by the total function `eval_model`; statement
//! execution by `run_inst`, a big-step semantics indexed by fuel that bounds
//! how many times loop bodies may run — `None` means the fuel ran out, so a
//! diverging loop is `None` for every fuel, while every terminating execution
//! has a fuel witness.

use vstd::prelude::*;

verus! {

use crate::errors::{
    CustomError,
    ErrorModel,
    operator_not_found_model,
    variable_not_found_model,
};
use crate::value::{
    Value,
    ValueModel,
    add_model,
    sub_model,
    mul_model,
    div_model,
    eq_model,
    cmp_defined,
    cannot_model,
    value_result_model,
    bool_result_model,
};
use crate::variables::{VariableManager, ScopeModel, EntryModel, lookup_model, set_model, scopes_wf};

/// The abstract content of an expression node.
pub enum ValuableModel {
    IntegerLit(i64),
    FloatLit(Seq<char>),
    StrLit(Seq<char>),
    Var(Seq<char>),
    Operation(Box<ValuableModel>, Box<ValuableModel>, char),
    Condition(Box<ValuableModel>, Box<ValuableModel>, char),
}

/// The abstract content of a statement node.
pub enum InstructionModel {
    Affectation(Seq<char>, ValuableModel),
    Eval(ValuableModel),
    Block(Seq<InstructionModel>),
    ConditionBlock(ValuableModel, Seq<InstructionModel>),
    ConditionLoop(ValuableModel, Seq<InstructionModel>),
}

/// What a binary operator returns on two evaluated operands: the four
/// arithmetic operators, or an `OperatorNotFoundError` for any other symbol.
pub open spec fn apply_operator(op: char, a: ValueModel, b: ValueModel) -> Result<
    ValueModel,
    ErrorModel,
> {
    if op == '+' {
        add_model(a, b)
    } else if op == '-' {
        sub_model(a, b)
    } else if op == '*' {
        mul_model(a, b)
    } else if op == '/' {
        div_model(a, b)
    } else {
        Err(operator_not_found_model(op))
    }
}

/// What a comparison operator returns on two evaluated operands: ordering for
/// integers, equality for same-tag pairs, or an `OperatorNotFoundError` for
/// any other symbol.
pub open spec fn apply_comparator(op: char, a: ValueModel, b: ValueModel) -> Result<
    bool,
    ErrorModel,
> {
    if op == '>' {
        if cmp_defined(a, b) {
            Ok(a->Integer_0 > b->Integer_0)
        } else {
            Err(cannot_model("compare"@, a, b))
        }
    } else if op == '<' {
        if cmp_defined(a, b) {
            Ok(a->Integer_0 < b->Integer_0)
        } else {
            Err(cannot_model("compare"@, a, b))
        }
    } else if op == '=' {
        Ok(eq_model(a, b))
    } else if op == '\u{2260}' {
        Ok(!eq_model(a, b))
    } else {
        Err(operator_not_found_model(op))
    }
}

/// What a comparison node decides: both sides evaluated left to right, then
/// the comparator applied. Meaningful only for `Condition` nodes.
pub open spec fn compare_model(env: ScopeModel, v: ValuableModel) -> Result<bool, ErrorModel>
    decreases v, 0int,
{
    match v {
        ValuableModel::Condition(l, r, op) => match eval_model(env, *l) {
            Ok(a) => match eval_model(env, *r) {
                Ok(b) => apply_comparator(op, a, b),
                Err(e) => Err(e),
            },
            Err(e) => Err(e),
        },
        _ => arbitrary(),
    }
}

/// What an expression evaluates to: literals to their values, a variable to
/// its binding (unbound is a `VariableNotFoundError`), an operation to its
/// operator applied to both sides evaluated left to right, and a comparison
/// to a boolean value. Evaluation never changes the store.
pub open spec fn eval_model(env: ScopeModel, v: ValuableModel) -> Result<ValueModel, ErrorModel>
    decreases v, 1int,
{
    match v {
        ValuableModel::IntegerLit(i) => Ok(ValueModel::Integer(i)),
        ValuableModel::FloatLit(t) => Ok(ValueModel::Float(t)),
        ValuableModel::StrLit(s) => Ok(ValueModel::Str(s)),
        ValuableModel::Var(name) => match lookup_model(env, name) {
            Some(val) => Ok(val),
            None => Err(variable_not_found_model(name)),
        },
        ValuableModel::Operation(l, r, op) => match eval_model(env, *l) {
            Ok(a) => match eval_model(env, *r) {
                Ok(b) => apply_operator(op, a, b),
                Err(e) => Err(e),
            },
            Err(e) => Err(e),
        },
        ValuableModel::Condition(_, _, _) => match compare_model(env, v) {
            Ok(b) => Ok(ValueModel::Boolean(b)),
            Err(e) => Err(e),
        },
    }
}

/// What one statement does to the store and returns, with `fuel` bounding how
/// many times loop bodies may run: `None` when the fuel ran out.
///
/// An assignment evaluates its expression and binds the name, yielding null.
/// A bare expression yields its value. A block runs its statements in a fresh
/// innermost frame, popped afterwards even when a statement fails, and yields
/// null. A conditional runs its block only when the condition yields exactly
/// the boolean true — any other value counts as false, never an error. A loop
/// re-evaluates its condition before each iteration and runs its block, each
/// iteration in a fresh frame, until the condition yields anything but true.
pub open spec fn run_inst(env: ScopeModel, inst: InstructionModel, fuel: nat) -> Option<
    (ScopeModel, Result<ValueModel, ErrorModel>),
>
    decreases fuel, inst, 2int,
{
    match inst {
        InstructionModel::Affectation(name, v) => match eval_model(env, v) {
            Ok(val) => Some((set_model(env, name, val), Ok(ValueModel::Null))),
            Err(e) => Some((env, Err(e))),
        },
        InstructionModel::Eval(v) => match eval_model(env, v) {
            Ok(val) => Some((env, Ok(val))),
            Err(e) => Some((env, Err(e))),
        },
        InstructionModel::Block(ss) => run_block(env, ss, fuel),
        InstructionModel::ConditionBlock(c, ss) => match eval_model(env, c) {
            Ok(val) => if val == ValueModel::Boolean(true) {
                run_block(env, ss, fuel)
            } else {
                Some((env, Ok(ValueModel::Null)))
            },
            Err(e) => Some((env, Err(e))),
        },
        InstructionModel::ConditionLoop(c, ss) => match eval_model(env, c) {
            Ok(val) => if val == ValueModel::Boolean(true) {
                match run_block(env, ss, fuel) {
                    None => None,
                    Some((env2, Ok(_))) => if fuel == 0 {
                        None
                    } else {
                        run_inst(env2, inst, (fuel - 1) as nat)
                    },
                    Some((env2, Err(e))) => Some((env2, Err(e))),
                }
            } else {
                Some((env, Ok(ValueModel::Null)))
            },
            Err(e) => Some((env, Err(e))),
        },
    }
}

/// What a block does: its statements run in order inside a fresh innermost
/// frame, which is popped afterwards even when a statement fails; a
/// successful block yields null.
pub open spec fn run_block(env: ScopeModel, ss: Seq<InstructionModel>, fuel: nat) -> Option<
    (ScopeModel, Result<ValueModel, ErrorModel>),
>
    decreases fuel, ss, ss.len() + 1,
{
    match run_seq(env.push(Seq::<EntryModel>::empty()), ss, 0, fuel) {
        None => None,
        Some((env2, Ok(_))) => Some((env2.drop_last(), Ok(ValueModel::Null))),
        Some((env2, Err(e))) => Some((env2.drop_last(), Err(e))),
    }
}

/// What a statement list does from position `k` on: statements run in order,
/// the first failure stops the list, and a completed list yields the last
/// statement's value — null when the list is empty.
pub open spec fn run_seq(env: ScopeModel, ss: Seq<InstructionModel>, k: int, fuel: nat) -> Option<
    (ScopeModel, Result<ValueModel, ErrorModel>),
>
    decreases fuel, ss, ss.len() - k,
{
    if k < 0 || k >= ss.len() {
        Some((env, Ok(ValueModel::Null)))
    } else {
        match run_inst(env, ss[k], fuel) {
            None => None,
            Some((env2, Ok(v))) => if k == ss.len() - 1 {
                Some((env2, Ok(v)))
            } else {
                run_seq(env2, ss, k + 1, fuel)
            },
            Some((env2, Err(e))) => Some((env2, Err(e))),
        }
    }
}

/// Running a statement keeps the store well formed and keeps the number of
/// frames: every frame a statement pushes is popped again on every path.
pub proof fn lemma_run_inst_preserves(env: ScopeModel, inst: InstructionModel, fuel: nat)
    requires
        scopes_wf(env),
        run_inst(env, inst, fuel) is Some,
    ensures
        run_inst(env, inst, fuel)->Some_0.0.len() == env.len(),
        scopes_wf(run_inst(env, inst, fuel)->Some_0.0),
    decreases fuel, inst, 2int,
{
    match inst {
        InstructionModel::Affectation(name, v) => {
            match eval_model(env, v) {
                Ok(val) => {
                    crate::variables::lemma_set_wf(env, name, val);
                },
                Err(_) => {},
            }
        },
        InstructionModel::Eval(_) => {},
        InstructionModel::Block(ss) => {
            lemma_run_block_preserves(env, ss, fuel);
        },
        InstructionModel::ConditionBlock(c, ss) => {
            match eval_model(env, c) {
                Ok(val) => {
                    if val == ValueModel::Boolean(true) {
                        lemma_run_block_preserves(env, ss, fuel);
                    }
                },
                Err(_) => {},
            }
        },
        InstructionModel::ConditionLoop(c, ss) => {
            match eval_model(env, c) {
                Ok(val) => {
                    if val == ValueModel::Boolean(true) {
                        match run_block(env, ss, fuel) {
                            None => {},
                            Some((env2, Ok(_))) => {
                                lemma_run_block_preserves(env, ss, fuel);
                                if fuel != 0 {
                                    lemma_run_inst_preserves(env2, inst, (fuel - 1) as nat);
                                }
                            },
                            Some((env2, Err(_))) => {
                                lemma_run_block_preserves(env, ss, fuel);
                            },
                        }
                    }
                },
                Err(_) => {},
            }
        },
    }
}

/// Running a block keeps the store well formed and the frame count.
pub proof fn lemma_run_block_preserves(env: ScopeModel, ss: Seq<InstructionModel>, fuel: nat)
    requires
        scopes_wf(env),
        run_block(env, ss, fuel) is Some,
    ensures
        run_block(env, ss, fuel)->Some_0.0.len() == env.len(),
        scopes_wf(run_block(env, ss, fuel)->Some_0.0),
    decreases fuel, ss, ss.len() + 1,
{
    let pushed = env.push(Seq::<EntryModel>::empty());
    assert(scopes_wf(pushed)) by {
        assert(forall|i: int|
            0 <= i < pushed.len() ==> crate::variables::frame_wf(#[trigger] pushed[i]));
    }
    lemma_run_seq_preserves(pushed, ss, 0, fuel);
    let env2 = run_seq(pushed, ss, 0, fuel)->Some_0.0;
    assert(scopes_wf(env2.drop_last())) by {
        assert(forall|i: int|
            0 <= i < env2.drop_last().len() ==> env2.drop_last()[i] == env2[i]);
    }
}

/// Running a statement list keeps the store well formed and the frame count.
pub proof fn lemma_run_seq_preserves(env: ScopeModel, ss: Seq<InstructionModel>, k: int, fuel: nat)
    requires
        scopes_wf(env),
        run_seq(env, ss, k, fuel) is Some,
    ensures
        run_seq(env, ss, k, fuel)->Some_0.0.len() == env.len(),
        scopes_wf(run_seq(env, ss, k, fuel)->Some_0.0),
    decreases fuel, ss, ss.len() - k,
{
    if 0 <= k < ss.len() {
        match run_inst(env, ss[k], fuel) {
            None => {},
            Some((env2, Ok(_))) => {
                lemma_run_inst_preserves(env, ss[k], fuel);
                if k != ss.len() - 1 {
                    lemma_run_seq_preserves(env2, ss, k + 1, fuel);
                }
            },
            Some((env2, Err(_))) => {
                lemma_run_inst_preserves(env, ss[k], fuel);
            },
        }
    }
}

/// More fuel never changes a completed execution: whatever one statement does
/// with some fuel, it does identically with any larger fuel.
pub proof fn lemma_run_inst_mono(env: ScopeModel, inst: InstructionModel, f1: nat, f2: nat)
    requires
        f1 <= f2,
        run_inst(env, inst, f1) is Some,
    ensures
        run_inst(env, inst, f2) == run_inst(env, inst, f1),
    decreases f1, inst, 2int,
{
    match inst {
        InstructionModel::Affectation(_, _) => {},
        InstructionModel::Eval(_) => {},
        InstructionModel::Block(ss) => {
            lemma_run_block_mono(env, ss, f1, f2);
        },
        InstructionModel::ConditionBlock(c, ss) => {
            match eval_model(env, c) {
                Ok(val) => {
                    if val == ValueModel::Boolean(true) {
                        lemma_run_block_mono(env, ss, f1, f2);
                    }
                },
                Err(_) => {},
            }
        },
        InstructionModel::ConditionLoop(c, ss) => {
            match eval_model(env, c) {
                Ok(val) => {
                    if val == ValueModel::Boolean(true) {
                        match run_block(env, ss, f1) {
                            None => {},
                            Some((env2, Ok(_))) => {
                                lemma_run_block_mono(env, ss, f1, f2);
                                if f1 != 0 {
                                    lemma_run_inst_mono(
                                        env2,
                                        inst,
                                        (f1 - 1) as nat,
                                        (f2 - 1) as nat,
                                    );
                                }
                            },
                            Some((env2, Err(_))) => {
                                lemma_run_block_mono(env, ss, f1, f2);
                            },
                        }
                    }
                },
                Err(_) => {},
            }
        },
    }
}

/// More fuel never changes a completed block.
pub proof fn lemma_run_block_mono(env: ScopeModel, ss: Seq<InstructionModel>, f1: nat, f2: nat)
    requires
        f1 <= f2,
        run_block(env, ss, f1) is Some,
    ensures
        run_block(env, ss, f2) == run_block(env, ss, f1),
    decreases f1, ss, ss.len() + 1,
{
    lemma_run_seq_mono(env.push(Seq::<EntryModel>::empty()), ss, 0, f1, f2);
}

/// More fuel never changes a completed statement list.
pub proof fn lemma_run_seq_mono(
    env: ScopeModel,
    ss: Seq<InstructionModel>,
    k: int,
    f1: nat,
    f2: nat,
)
    requires
        f1 <= f2,
        run_seq(env, ss, k, f1) is Some,
    ensures
        run_seq(env, ss, k, f2) == run_seq(env, ss, k, f1),
    decreases f1, ss, ss.len() - k,
{
    if 0 <= k < ss.len() {
        match run_inst(env, ss[k], f1) {
            None => {},
            Some((env2, Ok(_))) => {
                lemma_run_inst_mono(env, ss[k], f1, f2);
                if k != ss.len() - 1 {
                    lemma_run_seq_mono(env2, ss, k + 1, f1, f2);
                }
            },
            Some((env2, Err(_))) => {
                lemma_run_inst_mono(env, ss[k], f1, f2);
            },
        }
    }
}

/// Execution is deterministic: two completed runs of the same statement from
/// the same store agree exactly, whatever their fuel. In particular,
/// executing the same block twice from equal states yields identical results
/// both times — the scoping machinery leaves no hidden residue behind.
pub proof fn lemma_run_deterministic(env: ScopeModel, inst: InstructionModel, f1: nat, f2: nat)
    requires
        run_inst(env, inst, f1) is Some,
        run_inst(env, inst, f2) is Some,
    ensures
        run_inst(env, inst, f1) == run_inst(env, inst, f2),
{
    if f1 <= f2 {
        lemma_run_inst_mono(env, inst, f1, f2);
    } else {
        lemma_run_inst_mono(env, inst, f2, f1);
    }
}

/// A loop whose condition does not yield the boolean true never runs its
/// body: the store is untouched, so names the body would bind stay unbound,
/// and the loop yields null.
pub proof fn lemma_while_false(
    env: ScopeModel,
    c: ValuableModel,
    ss: Seq<InstructionModel>,
    fuel: nat,
)
    requires
        eval_model(env, c) is Ok,
        eval_model(env, c)->Ok_0 != ValueModel::Boolean(true),
    ensures
        run_inst(env, InstructionModel::ConditionLoop(c, ss), fuel) == Some(
            (env, Ok::<ValueModel, ErrorModel>(ValueModel::Null)),
        ),
{
}

/// Running an assignment whose expression evaluates to a value and then
/// looking the name up yields exactly that value: the round trip through one
/// assignment statement returns what was assigned.
pub proof fn lemma_assign_round_trip(env: ScopeModel, name: Seq<char>, v: ValuableModel, fuel: nat)
    requires
        scopes_wf(env),
        eval_model(env, v) is Ok,
    ensures
        run_inst(env, InstructionModel::Affectation(name, v), fuel) == Some(
            (
                set_model(env, name, eval_model(env, v)->Ok_0),
                Ok::<ValueModel, ErrorModel>(ValueModel::Null),
            ),
        ),
        lookup_model(set_model(env, name, eval_model(env, v)->Ok_0), name) == Some(
            eval_model(env, v)->Ok_0,
        ),
{
    crate::variables::lemma_set_then_get(env, name, eval_model(env, v)->Ok_0);
}

/// An integer literal node.
pub struct IntegerValue {
    value: i64,
}

/// A float literal node, holding the literal text it was written as.
pub struct FloatValue {
    value: String,
}

/// A string literal node.
pub struct StringValue {
    value: String,
}

/// A variable reference node.
pub struct Variable {
    name: String,
}

/// A binary arithmetic node: both sides evaluated left to right, then the
/// operator applied.
pub struct Operation {
    left: Valuable,
    right: Valuable,
    operator: char,
}

/// A comparison node: both sides evaluated left to right, then the comparator
/// applied.
pub struct Condition {
    left: Valuable,
    right: Valuable,
    operator: char,
}

/// An expression: something that evaluates to a value against the store.
pub enum Valuable {
    Integer(IntegerValue),
    Float(FloatValue),
    Str(StringValue),
    Variable(Variable),
    Operation(Box<Operation>),
    Condition(Box<Condition>),
}

impl View for IntegerValue {
    type V = ValuableModel;

    closed spec fn view(&self) -> ValuableModel {
        ValuableModel::IntegerLit(self.value)
    }
}

impl View for FloatValue {
    type V = ValuableModel;

    closed spec fn view(&self) -> ValuableModel {
        ValuableModel::FloatLit(self.value@)
    }
}

impl View for StringValue {
    type V = ValuableModel;

    closed spec fn view(&self) -> ValuableModel {
        ValuableModel::StrLit(self.value@)
    }
}

impl View for Variable {
    type V = ValuableModel;

    closed spec fn view(&self) -> ValuableModel {
        ValuableModel::Var(self.name@)
    }
}

impl View for Operation {
    type V = ValuableModel;

    closed spec fn view(&self) -> ValuableModel
        decreases self,
    {
        ValuableModel::Operation(Box::new(self.left@), Box::new(self.right@), self.operator)
    }
}

impl View for Condition {
    type V = ValuableModel;

    closed spec fn view(&self) -> ValuableModel
        decreases self,
    {
        ValuableModel::Condition(Box::new(self.left@), Box::new(self.right@), self.operator)
    }
}

impl View for Valuable {
    type V = ValuableModel;

    open spec fn view(&self) -> ValuableModel
        decreases self,
    {
        match self {
            Valuable::Integer(n) => n@,
            Valuable::Float(n) => n@,
            Valuable::Str(n) => n@,
            Valuable::Variable(n) => n@,
            Valuable::Operation(n) => (**n)@,
            Valuable::Condition(n) => (**n)@,
        }
    }
}

impl IntegerValue {
    /// Builds an integer literal node.
    pub fn new(value: i64) -> (r: IntegerValue)
        ensures
            r@ == ValuableModel::IntegerLit(value),
    {
        IntegerValue { value }
    }
}

impl FloatValue {
    /// Builds a float literal node out of the literal text.
    pub fn new(value: &str) -> (r: FloatValue)
        ensures
            r@ == ValuableModel::FloatLit(value@),
    {
        FloatValue { value: value.to_owned() }
    }
}

impl StringValue {
    /// Builds a string literal node.
    pub fn new(value: &str) -> (r: StringValue)
        ensures
            r@ == ValuableModel::StrLit(value@),
    {
        StringValue { value: value.to_owned() }
    }
}

impl Variable {
    /// Builds a variable reference node.
    pub fn new(name: &str) -> (r: Variable)
        ensures
            r@ == ValuableModel::Var(name@),
    {
        Variable { name: name.to_owned() }
    }
}

impl Valuable {
    /// Evaluates this expression against the store, exactly as `eval_model`
    /// describes; the store is read, never changed.
    pub fn get_value(&self, variables: &mut VariableManager) -> (r: Result<Value, CustomError>)
        ensures
            final(variables)@ == old(variables)@,
            value_result_model(r) == eval_model(old(variables)@, self@),
        decreases self@, 2int,
    {
        match self {
            Valuable::Integer(n) => Ok(Value::new_integer(n.value)),
            Valuable::Float(n) => Ok(Value::Float(n.value.clone())),
            Valuable::Str(n) => Ok(Value::Str(n.value.clone())),
            Valuable::Variable(n) => variables.get_variable(n.name.as_str()),
            Valuable::Operation(n) => n.get_value(variables),
            Valuable::Condition(n) => n.get_value(variables),
        }
    }
}

impl Operation {
    /// Builds a binary arithmetic node.
    pub fn new(left: Valuable, right: Valuable, operator: char) -> (r: Operation)
        ensures
            r@ == ValuableModel::Operation(Box::new(left@), Box::new(right@), operator),
    {
        Operation { left, right, operator }
    }

    /// Evaluates both sides left to right, then applies the operator; an
    /// operator outside `+ - * /` is an `OperatorNotFoundError`.
    pub fn get_value(&self, variables: &mut VariableManager) -> (r: Result<Value, CustomError>)
        ensures
            final(variables)@ == old(variables)@,
            value_result_model(r) == eval_model(old(variables)@, self@),
        decreases self@, 0int,
    {
        let left = match self.left.get_value(variables) {
            Ok(v) => v,
            Err(e) => {
                return Err(e);
            },
        };
        let right = match self.right.get_value(variables) {
            Ok(v) => v,
            Err(e) => {
                return Err(e);
            },
        };
        if self.operator == '+' {
            left.add(&right)
        } else if self.operator == '-' {
            left.sub(&right)
        } else if self.operator == '*' {
            left.mul(&right)
        } else if self.operator == '/' {
            left.div(&right)
        } else {
            Err(CustomError::new_operator_not_found_error(self.operator))
        }
    }
}

impl Condition {
    /// Builds a comparison node.
    pub fn new(left: Valuable, right: Valuable, operator: char) -> (r: Condition)
        ensures
            r@ == ValuableModel::Condition(Box::new(left@), Box::new(right@), operator),
    {
        Condition { left, right, operator }
    }

    /// Decides this comparison: both sides evaluated left to right, then the
    /// comparator applied; a comparator outside the supported set is an
    /// `OperatorNotFoundError`.
    pub fn is_true(&self, variables: &mut VariableManager) -> (r: Result<bool, CustomError>)
        ensures
            final(variables)@ == old(variables)@,
            bool_result_model(r) == compare_model(old(variables)@, self@),
        decreases self@, 0int,
    {
        let left = match self.left.get_value(variables) {
            Ok(v) => v,
            Err(e) => {
                return Err(e);
            },
        };
        let right = match self.right.get_value(variables) {
            Ok(v) => v,
            Err(e) => {
                return Err(e);
            },
        };
        if self.operator == '>' {
            left.gt(&right)
        } else if self.operator == '<' {
            left.lt(&right)
        } else if self.operator == '=' {
            left.eq(&right)
        } else if self.operator == '\u{2260}' {
            left.neq(&right)
        } else {
            Err(CustomError::new_operator_not_found_error(self.operator))
        }
    }

    /// Evaluates this comparison to a boolean value.
    pub fn get_value(&self, variables: &mut VariableManager) -> (r: Result<Value, CustomError>)
        ensures
            final(variables)@ == old(variables)@,
            value_result_model(r) == eval_model(old(variables)@, self@),
        decreases self@, 1int,
    {
        match self.is_true(variables) {
            Ok(b) => Ok(Value::new_boolean(b)),
            Err(e) => Err(e),
        }
    }
}

/// An assignment statement: evaluates its expression and binds the name.
pub struct Affectation {
    variable: String,
    value: Valuable,
}

/// A block statement: statements run in order inside a fresh innermost frame.
pub struct InstructionBlock {
    instructions: Vec<Instruction>,
}

/// A conditional statement: the block runs only when the condition yields
/// exactly the boolean true.
pub struct ConditionBlock {
    conditions: Valuable,
    instructions: InstructionBlock,
}

/// A loop statement: the condition is re-evaluated before each iteration and
/// the block runs until the condition yields anything but true.
pub struct ConditionLoop {
    condition: Valuable,
    instructions: InstructionBlock,
}

/// A statement: something that runs against the store.
pub enum Instruction {
    Affectation(Affectation),
    Valuable(Valuable),
    Block(InstructionBlock),
    ConditionBlock(Box<ConditionBlock>),
    ConditionLoop(Box<ConditionLoop>),
}

/// The models of a statement list.
pub open spec fn insts_model(ss: Seq<Instruction>) -> Seq<InstructionModel>
    decreases ss,
{
    if ss.len() == 0 {
        Seq::empty()
    } else {
        seq![ss[0]@] + insts_model(ss.drop_first())
    }
}

/// The model list is the element-wise model of the statement list.
pub proof fn lemma_insts_model(ss: Seq<Instruction>)
    ensures
        insts_model(ss).len() == ss.len(),
        forall|i: int| 0 <= i < ss.len() ==> insts_model(ss)[i] == ss[i]@,
    decreases ss,
{
    assert(ss.len() == 0 ==> insts_model(ss).len() == 0);
    if ss.len() > 0 {
        lemma_insts_model(ss.drop_first());
        assert(insts_model(ss) == seq![ss[0]@] + insts_model(ss.drop_first()));
        assert forall|i: int| 0 <= i < ss.len() implies insts_model(ss)[i] == ss[i]@ by {
            if i > 0 {
                assert(insts_model(ss)[i] == insts_model(ss.drop_first())[i - 1]);
                assert(ss.drop_first()[i - 1] == ss[i]);
            }
        }
    }
}

impl View for Affectation {
    type V = InstructionModel;

    closed spec fn view(&self) -> InstructionModel
        decreases self,
    {
        InstructionModel::Affectation(self.variable@, self.value@)
    }
}

impl View for InstructionBlock {
    type V = Seq<InstructionModel>;

    closed spec fn view(&self) -> Seq<InstructionModel>
        decreases self,
    {
        insts_model(self.instructions@)
    }
}

impl View for ConditionBlock {
    type V = InstructionModel;

    closed spec fn view(&self) -> InstructionModel
        decreases self,
    {
        InstructionModel::ConditionBlock(self.conditions@, self.instructions@)
    }
}

impl View for ConditionLoop {
    type V = InstructionModel;

    closed spec fn view(&self) -> InstructionModel
        decreases self,
    {
        InstructionModel::ConditionLoop(self.condition@, self.instructions@)
    }
}

impl View for Instruction {
    type V = InstructionModel;

    open spec fn view(&self) -> InstructionModel
        decreases self,
    {
        match self {
            Instruction::Affectation(n) => n@,
            Instruction::Valuable(n) => InstructionModel::Eval(n@),
            Instruction::Block(n) => InstructionModel::Block(n@),
            Instruction::ConditionBlock(n) => (**n)@,
            Instruction::ConditionLoop(n) => (**n)@,
        }
    }
}

impl Affectation {
    /// Builds an assignment statement.
    pub fn new(variable: &str, value: Valuable) -> (r: Affectation)
        ensures
            r@ == InstructionModel::Affectation(variable@, value@),
    {
        Affectation { variable: variable.to_owned(), value }
    }

    /// Evaluates the expression and binds the name, yielding null.
    pub fn execute(&self, variables: &mut VariableManager) -> (r: Result<Value, CustomError>)
        requires
            scopes_wf(old(variables)@),
        ensures
            scopes_wf(final(variables)@),
            final(variables)@.len() == old(variables)@.len(),
            exists|fuel: nat|
                #[trigger] run_inst(old(variables)@, self@, fuel) == Some(
                    (final(variables)@, value_result_model(r)),
                ),
    {
        let ghost env0 = variables@;
        let value = match self.value.get_value(variables) {
            Ok(v) => v,
            Err(e) => {
                proof {
                    assert(run_inst(env0, self@, 0nat) == Some(
                        (variables@, value_result_model(Err::<Value, CustomError>(e))),
                    ));
                }
                return Err(e);
            },
        };
        variables.set_variable(self.variable.as_str(), value);
        proof {
            crate::variables::lemma_set_wf(env0, self.variable@, eval_model(env0, self.value@)->Ok_0);
            assert(run_inst(env0, self@, 0nat) == Some(
                (variables@, value_result_model(Ok::<Value, CustomError>(Value::Null))),
            ));
        }
        Ok(Value::new_null())
    }
}

/// Runs a statement list in order against the store: the first failure stops
/// it, and a completed list yields the last statement's value — null when the
/// list is empty.
fn run_statements(instructions: &Vec<Instruction>, variables: &mut VariableManager) -> (r: Result<
    Value,
    CustomError,
>)
    requires
        scopes_wf(old(variables)@),
        exists|fuel: nat|
            (#[trigger] run_seq(old(variables)@, insts_model(instructions@), 0, fuel)) is Some,
    ensures
        scopes_wf(final(variables)@),
        final(variables)@.len() == old(variables)@.len(),
        exists|fuel: nat|
            #[trigger] run_seq(old(variables)@, insts_model(instructions@), 0, fuel) == Some(
                (final(variables)@, value_result_model(r)),
            ),
    decreases insts_model(instructions@), 0int,
{
    let ghost env0 = variables@;
    let ghost ms = insts_model(instructions@);
    let n = instructions.len();
    let mut last = Value::new_null();
    let mut k: usize = 0;
    let ghost mut gf: nat = 0;
    proof {
        lemma_insts_model(instructions@);
        assert(n == ms.len());
    }
    while k < n
        invariant
            k <= n,
            n == ms.len(),
            ms == insts_model(instructions@),
            env0 == old(variables)@,
            scopes_wf(variables@),
            scopes_wf(env0),
            variables@.len() == env0.len(),
            k < n ==> exists|f: nat| (#[trigger] run_seq(variables@, ms, k as int, f)) is Some,
            k < n ==> forall|f: nat|
                f >= gf && (#[trigger] run_seq(variables@, ms, k as int, f)) is Some ==> run_seq(
                    env0,
                    ms,
                    0,
                    f,
                ) == run_seq(variables@, ms, k as int, f),
            k == n ==> run_seq(env0, ms, 0, gf) == Some(
                (variables@, Ok::<ValueModel, ErrorModel>(last@)),
            ),
        decreases n - k,
    {
        let ghost env_k = variables@;
        let ghost fterm = choose|f: nat| (#[trigger] run_seq(env_k, ms, k as int, f)) is Some;
        proof {
            lemma_insts_model(instructions@);
            assert(ms[k as int] == instructions@[k as int]@);
            assert(run_inst(env_k, ms[k as int], fterm) is Some);
        }
        let result = instructions[k].execute(variables);
        let ghost fk = choose|f: nat|
            #[trigger] run_inst(env_k, ms[k as int], f) == Some(
                (variables@, value_result_model(result)),
            );
        let ghost bigf: nat = if gf >= fk {
            gf
        } else {
            fk
        };
        match result {
            Err(e) => {
                proof {
                    lemma_run_inst_mono(env_k, ms[k as int], fk, bigf);
                    assert(run_seq(env_k, ms, k as int, bigf) == Some(
                        (variables@, Err::<ValueModel, ErrorModel>(e@)),
                    ));
                    assert(run_seq(env0, ms, 0, bigf) == Some(
                        (variables@, value_result_model(Err::<Value, CustomError>(e))),
                    ));
                }
                return Err(e);
            },
            Ok(v) => {
                last = v;
                proof {
                    if k as int == n - 1 {
                        lemma_run_inst_mono(env_k, ms[k as int], fk, bigf);
                        assert(run_seq(env_k, ms, k as int, bigf) == Some(
                            (variables@, Ok::<ValueModel, ErrorModel>(last@)),
                        ));
                        assert(run_seq(env0, ms, 0, bigf) == Some(
                            (variables@, Ok::<ValueModel, ErrorModel>(last@)),
                        ));
                        gf = bigf;
                    } else {
                        assert forall|f: nat|
                            f >= bigf && (#[trigger] run_seq(variables@, ms, k + 1, f)) is
                            Some implies run_seq(env0, ms, 0, f) == run_seq(
                            variables@,
                            ms,
                            k + 1,
                            f,
                        ) by {
                            lemma_run_inst_mono(env_k, ms[k as int], fk, f);
                            assert(run_seq(env_k, ms, k as int, f) == run_seq(
                                variables@,
                                ms,
                                k + 1,
                                f,
                            ));
                        }
                        let f2: nat = if fterm >= fk {
                            fterm
                        } else {
                            fk
                        };
                        lemma_run_inst_mono(env_k, ms[k as int], fk, f2);
                        lemma_run_seq_mono(env_k, ms, k as int, fterm, f2);
                        assert(run_seq(env_k, ms, k as int, f2) == run_seq(variables@, ms, k + 1, f2));
                        assert(run_seq(variables@, ms, k + 1, f2) is Some);
                        gf = bigf;
                    }
                }
                k = k + 1;
            },
        }
    }
    proof {
        if n == 0 {
            assert(run_seq(env0, ms, 0, gf) == Some(
                (variables@, Ok::<ValueModel, ErrorModel>(last@)),
            ));
        }
        assert(value_result_model(Ok::<Value, CustomError>(last)) == Ok::<
            ValueModel,
            ErrorModel,
        >(last@));
    }
    Ok(last)
}

impl InstructionBlock {
    /// Builds a block statement.
    pub fn new(instructions: Vec<Instruction>) -> (r: InstructionBlock)
        ensures
            r@ == insts_model(instructions@),
    {
        InstructionBlock { instructions }
    }

    /// Runs the block: a fresh innermost frame, the statements in order, the
    /// frame popped afterwards even when a statement fails; a successful
    /// block yields null.
    pub fn execute(&self, variables: &mut VariableManager) -> (r: Result<Value, CustomError>)
        requires
            scopes_wf(old(variables)@),
            exists|fuel: nat| (#[trigger] run_block(old(variables)@, self@, fuel)) is Some,
        ensures
            scopes_wf(final(variables)@),
            final(variables)@.len() == old(variables)@.len(),
            exists|fuel: nat|
                #[trigger] run_block(old(variables)@, self@, fuel) == Some(
                    (final(variables)@, value_result_model(r)),
                ),
        decreases self@, 1int,
    {
        let ghost env0 = variables@;
        let ghost fterm = choose|f: nat| (#[trigger] run_block(env0, self@, f)) is Some;
        variables.enter_scope();
        proof {
            assert(scopes_wf(variables@)) by {
                assert(forall|i: int|
                    0 <= i < variables@.len() ==> crate::variables::frame_wf(
                        #[trigger] variables@[i],
                    ));
            }
            assert(run_seq(variables@, insts_model(self.instructions@), 0, fterm) is Some);
        }
        let ghost pushed = variables@;
        let result = run_statements(&self.instructions, variables);
        let ghost fb = choose|f: nat|
            #[trigger] run_seq(pushed, self@, 0, f) == Some(
                (variables@, value_result_model(result)),
            );
        proof {
            lemma_run_seq_preserves(pushed, self@, 0, fb);
        }
        variables.exit_scope();
        match result {
            Ok(_) => {
                proof {
                    assert(run_block(env0, self@, fb) == Some(
                        (variables@, Ok::<ValueModel, ErrorModel>(ValueModel::Null)),
                    ));
                }
                Ok(Value::new_null())
            },
            Err(e) => {
                proof {
                    assert(run_block(env0, self@, fb) == Some(
                        (variables@, Err::<ValueModel, ErrorModel>(e@)),
                    ));
                }
                Err(e)
            },
        }
    }
}

impl ConditionBlock {
    /// Builds a conditional statement.
    pub fn new(conditions: Valuable, instructions: InstructionBlock) -> (r: ConditionBlock)
        ensures
            r@ == InstructionModel::ConditionBlock(conditions@, instructions@),
    {
        ConditionBlock { conditions, instructions }
    }

    /// Evaluates the condition and runs the block only when it yields exactly
    /// the boolean true; any other value counts as false. Yields null.
    pub fn execute(&self, variables: &mut VariableManager) -> (r: Result<Value, CustomError>)
        requires
            scopes_wf(old(variables)@),
            exists|fuel: nat| (#[trigger] run_inst(old(variables)@, self@, fuel)) is Some,
        ensures
            scopes_wf(final(variables)@),
            final(variables)@.len() == old(variables)@.len(),
            exists|fuel: nat|
                #[trigger] run_inst(old(variables)@, self@, fuel) == Some(
                    (final(variables)@, value_result_model(r)),
                ),
        decreases self@, 0int,
    {
        let ghost env0 = variables@;
        let ghost fterm = choose|f: nat| (#[trigger] run_inst(env0, self@, f)) is Some;
        let condition = match self.conditions.get_value(variables) {
            Ok(value) => match value {
                Value::Boolean(b) => b,
                _ => false,
            },
            Err(e) => {
                proof {
                    assert(run_inst(env0, self@, 0nat) == Some(
                        (variables@, value_result_model(Err::<Value, CustomError>(e))),
                    ));
                }
                return Err(e);
            },
        };
        if condition {
            proof {
                assert(run_block(env0, self.instructions@, fterm) is Some);
            }
            let result = self.instructions.execute(variables);
            let ghost fb = choose|f: nat|
                #[trigger] run_block(env0, self.instructions@, f) == Some(
                    (variables@, value_result_model(result)),
                );
            proof {
                assert(run_inst(env0, self@, fb) == Some(
                    (variables@, value_result_model(result)),
                ));
            }
            return result;
        }
        proof {
            assert(run_inst(env0, self@, 0nat) == Some(
                (variables@, value_result_model(Ok::<Value, CustomError>(Value::Null))),
            ));
        }
        Ok(Value::new_null())
    }
}

impl ConditionLoop {
    /// Builds a loop statement.
    pub fn new(condition: Valuable, instructions: InstructionBlock) -> (r: ConditionLoop)
        ensures
            r@ == InstructionModel::ConditionLoop(condition@, instructions@),
    {
        ConditionLoop { condition, instructions }
    }

    /// Re-evaluates the condition before each iteration and runs the block,
    /// each iteration in a fresh frame, until the condition yields anything
    /// but the boolean true. Yields null. The contract asks the caller to
    /// know that the run completes for some fuel — the semantics itself has
    /// no iteration cap, and an unverified caller that starts a loop whose
    /// condition never falsifies simply never returns.
    pub fn execute(&self, variables: &mut VariableManager) -> (r: Result<Value, CustomError>)
        requires
            scopes_wf(old(variables)@),
            exists|fuel: nat| (#[trigger] run_inst(old(variables)@, self@, fuel)) is Some,
        ensures
            scopes_wf(final(variables)@),
            final(variables)@.len() == old(variables)@.len(),
            exists|fuel: nat|
                #[trigger] run_inst(old(variables)@, self@, fuel) == Some(
                    (final(variables)@, value_result_model(r)),
                ),
        decreases self@, 0int,
    {
        let ghost env0 = variables@;
        let ghost lm = self@;
        let ghost mut gf: nat = 0;
        let ghost mut fcur: nat = choose|f: nat| (#[trigger] run_inst(env0, lm, f)) is Some;
        loop
            invariant
                scopes_wf(variables@),
                scopes_wf(env0),
                env0 == old(variables)@,
                variables@.len() == env0.len(),
                lm == self@,
                lm is ConditionLoop,
                lm->ConditionLoop_0 == self.condition@,
                lm->ConditionLoop_1 == self.instructions@,
                run_inst(variables@, lm, fcur) is Some,
                forall|f: nat|
                    (#[trigger] run_inst(variables@, lm, f)) is Some ==> run_inst(
                        env0,
                        lm,
                        f + gf,
                    ) == run_inst(variables@, lm, f),
            decreases fcur,
        {
            let ghost env_i = variables@;
            let condition = match self.condition.get_value(variables) {
                Ok(value) => match value {
                    Value::Boolean(b) => b,
                    _ => false,
                },
                Err(e) => {
                    proof {
                        assert(run_inst(env_i, lm, 0nat) == Some(
                            (env_i, value_result_model(Err::<Value, CustomError>(e))),
                        ));
                        assert(run_inst(env0, lm, 0 + gf) == run_inst(env_i, lm, 0nat));
                    }
                    return Err(e);
                },
            };
            if !condition {
                proof {
                    assert(run_inst(env_i, lm, 0nat) == Some(
                        (env_i, value_result_model(Ok::<Value, CustomError>(Value::Null))),
                    ));
                    assert(run_inst(env0, lm, 0 + gf) == run_inst(env_i, lm, 0nat));
                }
                return Ok(Value::new_null());
            }
            proof {
                assert(run_block(env_i, self.instructions@, fcur) is Some);
            }
            let result = self.instructions.execute(variables);
            let ghost fb = choose|f: nat|
                #[trigger] run_block(env_i, self.instructions@, f) == Some(
                    (variables@, value_result_model(result)),
                );
            match result {
                Err(e) => {
                    proof {
                        assert(run_inst(env_i, lm, fb) == Some(
                            (variables@, Err::<ValueModel, ErrorModel>(e@)),
                        ));
                        assert(run_inst(env0, lm, fb + gf) == run_inst(env_i, lm, fb));
                    }
                    return Err(e);
                },
                Ok(_) => {
                    proof {
                        let env_n = variables@;
                        assert forall|f: nat| (#[trigger] run_inst(env_n, lm, f)) is
                        Some implies run_inst(env0, lm, f + (gf + fb + 1)) == run_inst(
                            env_n,
                            lm,
                            f,
                        ) by {
                            lemma_run_block_mono(env_i, self.instructions@, fb, f + fb + 1);
                            lemma_run_inst_mono(env_n, lm, f, f + fb);
                            assert(run_inst(env_i, lm, f + fb + 1) == run_inst(env_n, lm, f + fb));
                            assert(run_inst(env0, lm, (f + fb + 1) + gf) == run_inst(
                                env_i,
                                lm,
                                f + fb + 1,
                            ));
                            assert(f + (gf + fb + 1) == (f + fb + 1) + gf);
                        }
                        gf = gf + fb + 1;
                        if fb <= fcur {
                            lemma_run_block_mono(env_i, self.instructions@, fb, fcur);
                        } else {
                            lemma_run_block_mono(env_i, self.instructions@, fcur, fb);
                        }
                        assert(run_block(env_i, self.instructions@, fcur) == Some(
                            (env_n, value_result_model(result)),
                        ));
                        assert(fcur != 0);
                        assert(run_inst(env_i, lm, fcur) == run_inst(env_n, lm, (fcur - 1) as nat));
                        fcur = (fcur - 1) as nat;
                    }
                },
            }
        }
    }
}

impl Instruction {
    /// Runs this statement against the store, exactly as `run_inst` describes
    /// for some fuel.
    pub fn execute(&self, variables: &mut VariableManager) -> (r: Result<Value, CustomError>)
        requires
            scopes_wf(old(variables)@),
            exists|fuel: nat| (#[trigger] run_inst(old(variables)@, self@, fuel)) is Some,
        ensures
            scopes_wf(final(variables)@),
            final(variables)@.len() == old(variables)@.len(),
            exists|fuel: nat|
                #[trigger] run_inst(old(variables)@, self@, fuel) == Some(
                    (final(variables)@, value_result_model(r)),
                ),
        decreases self@, 2int,
    {
        let ghost fterm = choose|f: nat| (#[trigger] run_inst(old(variables)@, self@, f)) is Some;
        match self {
            Instruction::Affectation(n) => n.execute(variables),
            Instruction::Valuable(n) => {
                let ghost env0 = variables@;
                let r = n.get_value(variables);
                proof {
                    assert(run_inst(env0, self@, 0nat) == Some(
                        (variables@, value_result_model(r)),
                    ));
                }
                r
            },
            Instruction::Block(n) => {
                let ghost env0 = variables@;
                proof {
                    assert(run_inst(env0, self@, fterm) == run_block(env0, n@, fterm));
                }
                let r = n.execute(variables);
                proof {
                    let fb = choose|f: nat|
                        #[trigger] run_block(env0, n@, f) == Some(
                            (variables@, value_result_model(r)),
                        );
                    assert(run_inst(env0, self@, fb) == Some(
                        (variables@, value_result_model(r)),
                    ));
                }
                r
            },
            Instruction::ConditionBlock(n) => n.execute(variables),
            Instruction::ConditionLoop(n) => n.execute(variables),
        }
    }
}

/// The interpreter: owns the variable store that its statements run against;
/// the root frame persists for the interpreter's lifetime and can be read
/// afterwards through `get_variable`.
pub struct Interpreter {
    pub variables: VariableManager,
}

impl Interpreter {
    /// An interpreter over a store holding only the empty root frame.
    pub fn new() -> (r: Interpreter)
        ensures
            r.variables@ =~~= seq![Seq::<EntryModel>::empty()],
            scopes_wf(r.variables@),
    {
        Interpreter { variables: VariableManager::new() }
    }

    /// Reads a variable from the store after execution; an unbound name is a
    /// `VariableNotFoundError`.
    pub fn get_variable(&self, name: &str) -> (r: Result<Value, CustomError>)
        ensures
            match lookup_model(self.variables@, name@) {
                Some(v) => r is Ok && r->Ok_0@ == v,
                None => r is Err && r->Err_0@ == variable_not_found_model(name@),
            },
    {
        self.variables.get_variable(name)
    }

    /// Runs one statement against the store. The contract asks the caller to
    /// know that the run completes for some fuel; an unverified caller that
    /// runs a statement that never terminates simply never returns.
    pub fn execute(&mut self, instruction: &Instruction) -> (r: Result<Value, CustomError>)
        requires
            scopes_wf(old(self).variables@),
            exists|fuel: nat|
                (#[trigger] run_inst(old(self).variables@, instruction@, fuel)) is Some,
        ensures
            scopes_wf(final(self).variables@),
            final(self).variables@.len() == old(self).variables@.len(),
            exists|fuel: nat|
                #[trigger] run_inst(old(self).variables@, instruction@, fuel) == Some(
                    (final(self).variables@, value_result_model(r)),
                ),
    {
        instruction.execute(&mut self.variables)
    }

    /// Runs a statement list in order: the first failure stops it, and a
    /// completed list yields the last statement's value — null when the list
    /// is empty.
    pub fn execute_instructions(&mut self, instructions: &Vec<Instruction>) -> (r: Result<
        Value,
        CustomError,
    >)
        requires
            scopes_wf(old(self).variables@),
            exists|fuel: nat|
                (#[trigger] run_seq(old(self).variables@, insts_model(instructions@), 0, fuel))
                    is Some,
        ensures
            scopes_wf(final(self).variables@),
            final(self).variables@.len() == old(self).variables@.len(),
            exists|fuel: nat|
                #[trigger] run_seq(old(self).variables@, insts_model(instructions@), 0, fuel)
                    == Some((final(self).variables@, value_result_model(r))),
    {
        run_statements(instructions, &mut self.variables)
    }
}

} // verus!
