//! The syntax tree that the parser builds, and its mathematical model.

use vstd::prelude::*;
use crate::tokens::Token;

verus! {

/// The first and the last token of a syntax element.
#[derive(Debug)]
pub struct TokenInfo {
    first_token: Token,
    last_token: Token,
}

/// A binary operator.
#[derive(Clone, Copy, PartialEq, Eq, Debug, Structural)]
pub enum Operator {
    Equal,
    NotEqual,
    GreaterThan,
    GreaterEqualThan,
    LowerThan,
    LowerEqualThan,
    And,
    Or,
    Plus,
    Minus,
    Multiply,
    Divide,
}

/// An expression.
#[derive(PartialEq, Debug)]
pub enum HuleExpression {
    Undefined,
    Bracketed(Box<HuleExpression>),
    Boolean(bool),
    String(String),
    Integer(i32),
    Identifier(String),
    Call(String, Vec<HuleExpression>),
    Binary { left: Box<HuleExpression>, operator: Operator, right: Box<HuleExpression> },
}

/// The model of an expression: names and literals are sequences of
/// characters, argument lists are sequences.
pub enum ExpressionView {
    Undefined,
    Bracketed(Box<ExpressionView>),
    Boolean(bool),
    String(Seq<char>),
    Integer(i32),
    Identifier(Seq<char>),
    Call(Seq<char>, Seq<ExpressionView>),
    Binary { left: Box<ExpressionView>, operator: Operator, right: Box<ExpressionView> },
}

impl HuleExpression {
    /// The model of the expression.
    pub open spec fn model(&self) -> ExpressionView
        decreases self,
    {
        match self {
            HuleExpression::Undefined => ExpressionView::Undefined,
            HuleExpression::Bracketed(inner) => ExpressionView::Bracketed(Box::new(inner.model())),
            HuleExpression::Boolean(value) => ExpressionView::Boolean(*value),
            HuleExpression::String(text) => ExpressionView::String(text@),
            HuleExpression::Integer(value) => ExpressionView::Integer(*value),
            HuleExpression::Identifier(name) => ExpressionView::Identifier(name@),
            HuleExpression::Call(name, arguments) => ExpressionView::Call(
                name@,
                Seq::new(
                    arguments@.len(),
                    |i: int|
                        if 0 <= i < arguments@.len() {
                            arguments@[i].model()
                        } else {
                            ExpressionView::Undefined
                        },
                ),
            ),
            HuleExpression::Binary { left, operator, right } => ExpressionView::Binary {
                left: Box::new(left.model()),
                operator: *operator,
                right: Box::new(right.model()),
            },
        }
    }
}

impl View for HuleExpression {
    type V = ExpressionView;

    open spec fn view(&self) -> ExpressionView {
        self.model()
    }
}

/// The models of the expressions of `list`, in order.
pub open spec fn expression_views(list: Seq<HuleExpression>) -> Seq<ExpressionView> {
    Seq::new(list.len(), |i: int| list[i]@)
}

/// A copy of `list`.
pub fn clone_expressions(list: &Vec<HuleExpression>) -> (copies: Vec<HuleExpression>)
    ensures
        expression_views(copies@) == expression_views(list@),
{
    let mut copies: Vec<HuleExpression> = Vec::new();
    let mut i: usize = 0;
    while i < list.len()
        invariant
            i <= list.len(),
            copies@.len() == i,
            forall|j: int| 0 <= j < i ==> copies@[j]@ == list@[j]@,
        decreases list.len() - i,
    {
        copies.push(list[i].clone());
        i += 1;
    }
    assert(expression_views(copies@) =~= expression_views(list@));
    copies
}

impl Clone for HuleExpression {
    fn clone(&self) -> (copy: Self)
        ensures
            copy@ == self@,
        decreases self,
    {
        match self {
            HuleExpression::Undefined => HuleExpression::Undefined,
            HuleExpression::Bracketed(inner) => HuleExpression::Bracketed(
                Box::new((**inner).clone()),
            ),
            HuleExpression::Boolean(value) => HuleExpression::Boolean(*value),
            HuleExpression::String(text) => HuleExpression::String(text.clone()),
            HuleExpression::Integer(value) => HuleExpression::Integer(*value),
            HuleExpression::Identifier(name) => HuleExpression::Identifier(name.clone()),
            HuleExpression::Call(name, arguments) => {
                let mut copies: Vec<HuleExpression> = Vec::new();
                let mut i: usize = 0;
                while i < arguments.len()
                    invariant
                        i <= arguments.len(),
                        self is Call,
                        self->Call_1 == *arguments,
                        copies@.len() == i,
                        forall|j: int| 0 <= j < i ==> copies@[j]@ == arguments@[j]@,
                    decreases arguments.len() - i,
                {
                    proof {
                        vstd::std_specs::vec::axiom_vec_index_decreases(*arguments, i as int);
                    }
                    let copy = arguments[i].clone();
                    copies.push(copy);
                    i += 1;
                }
                let copy = HuleExpression::Call(name.clone(), copies);
                assert(copy@->Call_1 =~= self@->Call_1);
                copy
            },
            HuleExpression::Binary { left, operator, right } => HuleExpression::Binary {
                left: Box::new((**left).clone()),
                operator: *operator,
                right: Box::new((**right).clone()),
            },
        }
    }
}

/// A parameter: the name of its type, and its own name.
#[derive(Debug, PartialEq)]
pub struct HuleParameter {
    data_type: String,
    name: String,
}

/// The model of a parameter.
pub struct ParameterView {
    pub data_type: Seq<char>,
    pub name: Seq<char>,
}

impl View for HuleParameter {
    type V = ParameterView;

    closed spec fn view(&self) -> ParameterView {
        ParameterView { data_type: self.data_type@, name: self.name@ }
    }
}

impl HuleParameter {
    /// A parameter named `name` of the type named `data_type`.
    pub fn new(data_type: &str, name: &str) -> (parameter: HuleParameter)
        ensures
            parameter@ == (ParameterView { data_type: data_type@, name: name@ }),
    {
        HuleParameter { data_type: data_type.to_string(), name: name.to_string() }
    }
}

impl Clone for HuleParameter {
    fn clone(&self) -> (copy: Self)
        ensures
            copy@ == self@,
    {
        HuleParameter { data_type: self.data_type.clone(), name: self.name.clone() }
    }
}

/// The models of the parameters of `list`, in order.
pub open spec fn parameter_views(list: Seq<HuleParameter>) -> Seq<ParameterView> {
    Seq::new(list.len(), |i: int| list[i]@)
}

/// The contents of the strings of `list`, in order.
pub open spec fn string_views(list: Seq<String>) -> Seq<Seq<char>> {
    Seq::new(list.len(), |i: int| list[i]@)
}

/// The model of an optional expression.
pub open spec fn optional_view(value: Option<HuleExpression>) -> Option<ExpressionView> {
    match value {
        Some(expression) => Some(expression@),
        None => None,
    }
}

/// A call of a function.
#[derive(Debug, PartialEq)]
pub struct HuleFuncCall {
    pub name: String,
    pub parameters: Vec<HuleExpression>,
}

impl View for HuleFuncCall {
    type V = StatementView;

    /// A call is the statement that calls.
    open spec fn view(&self) -> StatementView {
        StatementView::FunctionCall {
            name: self.name@,
            arguments: expression_views(self.parameters@),
        }
    }
}

impl Clone for HuleFuncCall {
    fn clone(&self) -> (copy: Self)
        ensures
            copy@ == self@,
    {
        HuleFuncCall { name: self.name.clone(), parameters: clone_expressions(&self.parameters) }
    }
}

/// The definition of a function.
#[derive(Debug, PartialEq)]
pub struct HuleFuncDef {
    pub name: String,
    pub parameters: Vec<HuleParameter>,
    pub return_type: String,
    pub body: Vec<HuleStatement>,
}

/// A conditional statement.
#[derive(Debug, PartialEq)]
pub struct HuleIfStatement {
    pub condition: HuleExpression,
    pub body: Vec<HuleStatement>,
}

/// The declaration of a variable, with or without an initial value.
#[derive(Debug, PartialEq)]
pub struct HuleVariableDecl {
    pub data_type: String,
    pub name: String,
    pub value: Option<HuleExpression>,
}

/// An assignment to a variable declared elsewhere.
#[derive(Debug, PartialEq)]
pub struct HuleVariableDef {
    pub name: String,
    pub value: HuleExpression,
}

/// The declaration of a structure.
#[derive(Debug, PartialEq)]
pub struct HuleStructDecl {
    pub name: String,
    pub params: Vec<HuleParameter>,
}

/// The definition of a structure.
#[derive(Debug, PartialEq)]
pub struct HuleStructDef {
    pub name: String,
    pub members: Vec<String>,
}

/// A sequence of statements.
#[derive(Debug, PartialEq)]
pub struct HuleBody {
    pub items: Vec<HuleStatement>,
}

/// A statement.
#[derive(Debug, PartialEq)]
pub enum HuleStatement {
    Undefined,
    VariableDecl(HuleVariableDecl),
    VariableDef(HuleVariableDef),
    StructDecl(HuleStructDecl),
    StructDef(HuleStructDef),
    IfStatement(HuleIfStatement),
    FunctionDef(HuleFuncDef),
    FunctionCall(HuleFuncCall),
    Body(HuleBody),
    Return(HuleExpression),
}

/// The model of a statement.
#[allow(inconsistent_fields)]
pub enum StatementView {
    Undefined,
    VariableDecl { data_type: Seq<char>, name: Seq<char>, value: Option<ExpressionView> },
    VariableDef { name: Seq<char>, value: ExpressionView },
    StructDecl { name: Seq<char>, params: Seq<ParameterView> },
    StructDef { name: Seq<char>, members: Seq<Seq<char>> },
    IfStatement { condition: ExpressionView, body: Seq<StatementView> },
    FunctionDef {
        name: Seq<char>,
        parameters: Seq<ParameterView>,
        return_type: Seq<char>,
        body: Seq<StatementView>,
    },
    FunctionCall { name: Seq<char>, arguments: Seq<ExpressionView> },
    Body(Seq<StatementView>),
    Return(ExpressionView),
}

impl HuleStatement {
    /// The model of the statement.
    pub open spec fn model(&self) -> StatementView
        decreases self,
    {
        match self {
            HuleStatement::Undefined => StatementView::Undefined,
            HuleStatement::VariableDecl(declaration) => StatementView::VariableDecl {
                data_type: declaration.data_type@,
                name: declaration.name@,
                value: optional_view(declaration.value),
            },
            HuleStatement::VariableDef(definition) => StatementView::VariableDef {
                name: definition.name@,
                value: definition.value@,
            },
            HuleStatement::StructDecl(declaration) => StatementView::StructDecl {
                name: declaration.name@,
                params: parameter_views(declaration.params@),
            },
            HuleStatement::StructDef(definition) => StatementView::StructDef {
                name: definition.name@,
                members: string_views(definition.members@),
            },
            HuleStatement::IfStatement(conditional) => StatementView::IfStatement {
                condition: conditional.condition@,
                body: Seq::new(
                    conditional.body@.len(),
                    |i: int|
                        if 0 <= i < conditional.body@.len() {
                            conditional.body@[i].model()
                        } else {
                            StatementView::Undefined
                        },
                ),
            },
            HuleStatement::FunctionDef(definition) => StatementView::FunctionDef {
                name: definition.name@,
                parameters: parameter_views(definition.parameters@),
                return_type: definition.return_type@,
                body: Seq::new(
                    definition.body@.len(),
                    |i: int|
                        if 0 <= i < definition.body@.len() {
                            definition.body@[i].model()
                        } else {
                            StatementView::Undefined
                        },
                ),
            },
            HuleStatement::FunctionCall(call) => StatementView::FunctionCall {
                name: call.name@,
                arguments: expression_views(call.parameters@),
            },
            HuleStatement::Body(body) => StatementView::Body(
                Seq::new(
                    body.items@.len(),
                    |i: int|
                        if 0 <= i < body.items@.len() {
                            body.items@[i].model()
                        } else {
                            StatementView::Undefined
                        },
                ),
            ),
            HuleStatement::Return(value) => StatementView::Return(value@),
        }
    }
}

impl View for HuleStatement {
    type V = StatementView;

    open spec fn view(&self) -> StatementView {
        self.model()
    }
}

/// The models of the statements of `list`, in order.
pub open spec fn statement_views(list: Seq<HuleStatement>) -> Seq<StatementView> {
    Seq::new(list.len(), |i: int| list[i]@)
}

/// A copy of `list`.
pub fn clone_parameters(list: &Vec<HuleParameter>) -> (copies: Vec<HuleParameter>)
    ensures
        parameter_views(copies@) == parameter_views(list@),
{
    let mut copies: Vec<HuleParameter> = Vec::new();
    let mut i: usize = 0;
    while i < list.len()
        invariant
            i <= list.len(),
            copies@.len() == i,
            forall|j: int| 0 <= j < i ==> copies@[j]@ == list@[j]@,
        decreases list.len() - i,
    {
        copies.push(list[i].clone());
        i += 1;
    }
    assert(parameter_views(copies@) =~= parameter_views(list@));
    copies
}

/// A copy of `list`.
pub fn clone_strings(list: &Vec<String>) -> (copies: Vec<String>)
    ensures
        string_views(copies@) == string_views(list@),
{
    let mut copies: Vec<String> = Vec::new();
    let mut i: usize = 0;
    while i < list.len()
        invariant
            i <= list.len(),
            copies@.len() == i,
            forall|j: int| 0 <= j < i ==> copies@[j]@ == list@[j]@,
        decreases list.len() - i,
    {
        copies.push(list[i].clone());
        i += 1;
    }
    assert(string_views(copies@) =~= string_views(list@));
    copies
}

/// A copy of `list`.
pub fn clone_statements(list: &Vec<HuleStatement>) -> (copies: Vec<HuleStatement>)
    ensures
        statement_views(copies@) == statement_views(list@),
    decreases list,
{
    let mut copies: Vec<HuleStatement> = Vec::new();
    let mut i: usize = 0;
    while i < list.len()
        invariant
            i <= list.len(),
            copies@.len() == i,
            forall|j: int| 0 <= j < i ==> copies@[j]@ == list@[j]@,
        decreases list.len() - i,
    {
        proof {
            vstd::std_specs::vec::axiom_vec_index_decreases(*list, i as int);
        }
        let copy = list[i].clone();
        copies.push(copy);
        i += 1;
    }
    assert(statement_views(copies@) =~= statement_views(list@));
    copies
}

impl Clone for HuleStatement {
    fn clone(&self) -> (copy: Self)
        ensures
            copy@ == self@,
        decreases self,
    {
        match self {
            HuleStatement::Undefined => HuleStatement::Undefined,
            HuleStatement::VariableDecl(declaration) => HuleStatement::VariableDecl(
                declaration.clone(),
            ),
            HuleStatement::VariableDef(definition) => HuleStatement::VariableDef(
                definition.clone(),
            ),
            HuleStatement::StructDecl(declaration) => HuleStatement::StructDecl(
                declaration.clone(),
            ),
            HuleStatement::StructDef(definition) => HuleStatement::StructDef(definition.clone()),
            HuleStatement::IfStatement(conditional) => {
                let body = clone_statements(&conditional.body);
                let copy = HuleStatement::IfStatement(
                    HuleIfStatement { condition: conditional.condition.clone(), body },
                );
                assert(copy@->IfStatement_body =~= statement_views(body@));
                assert(self@->IfStatement_body =~= statement_views(conditional.body@));
                copy
            },
            HuleStatement::FunctionDef(definition) => {
                let body = clone_statements(&definition.body);
                let copy = HuleStatement::FunctionDef(
                    HuleFuncDef {
                        name: definition.name.clone(),
                        parameters: clone_parameters(&definition.parameters),
                        return_type: definition.return_type.clone(),
                        body,
                    },
                );
                assert(copy@->FunctionDef_body =~= statement_views(body@));
                assert(self@->FunctionDef_body =~= statement_views(definition.body@));
                copy
            },
            HuleStatement::FunctionCall(call) => HuleStatement::FunctionCall(call.clone()),
            HuleStatement::Body(body) => {
                let items = clone_statements(&body.items);
                let copy = HuleStatement::Body(HuleBody { items });
                assert(copy@->Body_0 =~= statement_views(items@));
                assert(self@->Body_0 =~= statement_views(body.items@));
                copy
            },
            HuleStatement::Return(value) => HuleStatement::Return(value.clone()),
        }
    }
}

impl Clone for HuleFuncDef {
    fn clone(&self) -> (copy: Self)
        ensures
            copy.name@ == self.name@,
            parameter_views(copy.parameters@) == parameter_views(self.parameters@),
            copy.return_type@ == self.return_type@,
            statement_views(copy.body@) == statement_views(self.body@),
    {
        HuleFuncDef {
            name: self.name.clone(),
            parameters: clone_parameters(&self.parameters),
            return_type: self.return_type.clone(),
            body: clone_statements(&self.body),
        }
    }
}

impl Clone for HuleIfStatement {
    fn clone(&self) -> (copy: Self)
        ensures
            copy.condition@ == self.condition@,
            statement_views(copy.body@) == statement_views(self.body@),
    {
        HuleIfStatement {
            condition: self.condition.clone(),
            body: clone_statements(&self.body),
        }
    }
}

impl Clone for HuleVariableDecl {
    fn clone(&self) -> (copy: Self)
        ensures
            copy.data_type@ == self.data_type@,
            copy.name@ == self.name@,
            optional_view(copy.value) == optional_view(self.value),
    {
        HuleVariableDecl {
            data_type: self.data_type.clone(),
            name: self.name.clone(),
            value: match &self.value {
                Some(value) => Some(value.clone()),
                None => None,
            },
        }
    }
}

impl Clone for HuleVariableDef {
    fn clone(&self) -> (copy: Self)
        ensures
            copy.name@ == self.name@,
            copy.value@ == self.value@,
    {
        HuleVariableDef { name: self.name.clone(), value: self.value.clone() }
    }
}

impl Clone for HuleStructDecl {
    fn clone(&self) -> (copy: Self)
        ensures
            copy.name@ == self.name@,
            parameter_views(copy.params@) == parameter_views(self.params@),
    {
        HuleStructDecl { name: self.name.clone(), params: clone_parameters(&self.params) }
    }
}

impl Clone for HuleStructDef {
    fn clone(&self) -> (copy: Self)
        ensures
            copy.name@ == self.name@,
            string_views(copy.members@) == string_views(self.members@),
    {
        HuleStructDef { name: self.name.clone(), members: clone_strings(&self.members) }
    }
}

impl Clone for HuleBody {
    fn clone(&self) -> (copy: Self)
        ensures
            copy@ == self@,
    {
        HuleBody { items: clone_statements(&self.items) }
    }
}

impl View for HuleBody {
    type V = Seq<StatementView>;

    open spec fn view(&self) -> Seq<StatementView> {
        statement_views(self.items@)
    }
}

impl HuleBody {
    /// The body made of `items`.
    pub fn new(items: Vec<HuleStatement>) -> (body: HuleBody)
        ensures
            body.items == items,
    {
        HuleBody { items }
    }
}

/// The calls of functions among `list`, in order.
pub open spec fn function_calls(list: Seq<StatementView>) -> Seq<StatementView>
    decreases list.len(),
{
    if list.len() == 0 {
        Seq::empty()
    } else if list.last() is FunctionCall {
        function_calls(list.drop_last()).push(list.last())
    } else {
        function_calls(list.drop_last())
    }
}

/// The models of the calls of `list`, in order.
pub open spec fn call_views(list: Seq<HuleFuncCall>) -> Seq<StatementView> {
    Seq::new(list.len(), |i: int| list[i]@)
}

/// The calls of functions among a list of statements.
pub trait FunctionCallIterator {
    /// The models of the statements.
    spec fn listed(&self) -> Seq<StatementView>;

    /// Copies of the statements that call a function, in order.
    fn iter_function_calls(&self) -> (calls: Vec<HuleFuncCall>)
        ensures
            call_views(calls@) == function_calls(self.listed()),
    ;
}

impl FunctionCallIterator for Vec<HuleStatement> {
    open spec fn listed(&self) -> Seq<StatementView> {
        statement_views(self@)
    }

    fn iter_function_calls(&self) -> (calls: Vec<HuleFuncCall>) {
        let mut calls: Vec<HuleFuncCall> = Vec::new();
        let mut i: usize = 0;
        assert(statement_views(self@).take(0) =~= Seq::<StatementView>::empty());
        assert(call_views(calls@) =~= Seq::<StatementView>::empty());
        while i < self.len()
            invariant
                i <= self.len(),
                call_views(calls@) == function_calls(statement_views(self@).take(i as int)),
            decreases self.len() - i,
        {
            let ghost before = statement_views(self@).take(i as int);
            let ghost after = statement_views(self@).take(i + 1);
            let ghost found = call_views(calls@);
            assert(after.drop_last() =~= before);
            assert(after.last() == self@[i as int]@);
            if let HuleStatement::FunctionCall(call) = &self[i] {
                let copy = call.clone();
                calls.push(copy);
                assert(call_views(calls@) =~= found.push(copy@));
            }
            i += 1;
        }
        assert(statement_views(self@).take(i as int) =~= statement_views(self@));
        calls
    }
}

/// A program: its top-level statements, in order.
#[derive(Debug, PartialEq)]
pub struct HuleProgramAst {
    pub body: HuleBody,
}

impl Clone for HuleProgramAst {
    fn clone(&self) -> (copy: Self)
        ensures
            copy@ == self@,
    {
        HuleProgramAst { body: self.body.clone() }
    }
}

impl View for HuleProgramAst {
    type V = Seq<StatementView>;

    open spec fn view(&self) -> Seq<StatementView> {
        self.body@
    }
}

} // verus!
