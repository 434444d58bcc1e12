use fentc::ast::BinaryOperator::{Add, And, Equals, Less, Mul, Or};
use fentc::ast::{BinaryOperator, Expression, Function, Mutability, Number, Statement, Type};
use fentc::grammar::Expectation;
use fentc::identifier::Identifier;
use fentc::lexer::lex;
use fentc::parser::{module, parse_source, Parse};
use fentc::span::{Span, Spanned};
use fentc::token::TokenKind;

fn name(text: &str) -> Identifier {
    Identifier::new(text.to_string())
}

fn ident(text: &str) -> Expression {
    Expression::Ident(name(text))
}

fn only_function(parsed: &Parse) -> &Function {
    assert_eq!(parsed.diagnostics, vec![]);
    let functions = parsed.program.functions();
    assert_eq!(functions.len(), 1);
    &functions[0].1
}

/// The trailing value of the body of the only function of `source`.
fn value_of(source: &str) -> Expression {
    let parsed = parse_source(source);
    let function = only_function(&parsed);
    match &function.body.value {
        Expression::Block { statements, eval } => {
            assert!(statements.is_empty());
            strip(&eval.value)
        }
        other => panic!("the body is no block: {other:?}"),
    }
}

/// A copy of `e` with every span set to zero, so that trees can be compared
/// by shape.
fn strip(e: &Expression) -> Expression {
    let zero = Span { start: 0, end: 0 };
    let boxed = |e: &Spanned<Expression>| Box::new(Spanned { value: strip(&e.value), span: zero });
    match e {
        Expression::Nil => Expression::Nil,
        Expression::Unit => Expression::Unit,
        Expression::Ident(n) => Expression::Ident(n.clone()),
        Expression::Bool(b) => Expression::Bool(*b),
        Expression::Number(n) => Expression::Number(n.clone()),
        Expression::If { condition, then, or_else } => Expression::If {
            condition: boxed(condition),
            then: boxed(then),
            or_else: boxed(or_else),
        },
        Expression::While { condition, then } => {
            Expression::While { condition: boxed(condition), then: boxed(then) }
        }
        Expression::Block { statements, eval } => Expression::Block {
            statements: statements
                .iter()
                .map(|s| Spanned { value: strip_statement(&s.value), span: zero })
                .collect(),
            eval: boxed(eval),
        },
        Expression::Binary { lhs, operator, rhs } => {
            Expression::Binary { lhs: boxed(lhs), operator: *operator, rhs: boxed(rhs) }
        }
    }
}

fn strip_statement(s: &Statement) -> Statement {
    let zero = Span { start: 0, end: 0 };
    match s {
        Statement::Expression(e) => Statement::Expression(strip(e)),
        Statement::Assignment { lhs, rhs } => Statement::Assignment {
            lhs: lhs.clone(),
            rhs: Spanned { value: strip(&rhs.value), span: zero },
        },
        Statement::Let { identifier, mutability, initializer } => Statement::Let {
            identifier: identifier.clone(),
            mutability: *mutability,
            initializer: Spanned { value: strip(&initializer.value), span: zero },
        },
    }
}

fn binary(lhs: Expression, operator: BinaryOperator, rhs: Expression) -> Expression {
    let zero = Span { start: 0, end: 0 };
    Expression::Binary {
        lhs: Box::new(Spanned { value: lhs, span: zero }),
        operator,
        rhs: Box::new(Spanned { value: rhs, span: zero }),
    }
}

fn block(statements: Vec<Statement>, eval: Expression) -> Expression {
    let zero = Span { start: 0, end: 0 };
    Expression::Block {
        statements: statements.into_iter().map(|value| Spanned { value, span: zero }).collect(),
        eval: Box::new(Spanned { value: eval, span: zero }),
    }
}

#[test]
fn subtraction_associates_to_the_left() {
    assert_eq!(
        value_of("fn () { a - b - c }"),
        binary(binary(ident("a"), BinaryOperator::Sub, ident("b")), BinaryOperator::Sub, ident("c"))
    );
}

#[test]
fn multiplication_binds_tighter_than_addition() {
    assert_eq!(
        value_of("fn () { a + b * c }"),
        binary(ident("a"), BinaryOperator::Add, binary(ident("b"), BinaryOperator::Mul, ident("c")))
    );
}

#[test]
fn every_tier_binds_tighter_than_the_one_before() {
    assert_eq!(
        value_of("fn () { a or b and c == d < e + f * g }"),
        binary(
            ident("a"),
            Or,
            binary(
                ident("b"),
                And,
                binary(
                    ident("c"),
                    Equals,
                    binary(
                        ident("d"),
                        Less,
                        binary(ident("e"), Add, binary(ident("f"), Mul, ident("g")))
                    )
                )
            )
        )
    );
}

#[test]
fn parentheses_override_precedence() {
    assert_eq!(
        value_of("fn () { (a + b) * c }"),
        binary(binary(ident("a"), BinaryOperator::Add, ident("b")), BinaryOperator::Mul, ident("c"))
    );
}

#[test]
fn end_to_end_example() {
    let parsed = parse_source("fn (a: f32) => f32 { let x = a + 1 { x } }");
    let function = only_function(&parsed);
    assert_eq!(function.parameters.len(), 1);
    assert_eq!(function.parameters[0].name.value, name("a"));
    assert_eq!(function.parameters[0].ty.value, Type::Named(name("f32")));
    assert_eq!(function.returns.value, Type::Named(name("f32")));
    assert_eq!(
        strip(&function.body.value),
        block(
            vec![Statement::Let {
                identifier: name("x"),
                mutability: Mutability::Immutable,
                initializer: Spanned {
                    value: binary(
                        ident("a"),
                        BinaryOperator::Add,
                        Expression::Number(Number::Integer(1))
                    ),
                    span: Span { start: 0, end: 0 },
                },
            }],
            block(vec![], ident("x")),
        )
    );
    assert_eq!(function.span, Span { start: 0, end: 42 });
    assert_eq!(function.body.span, Span { start: 19, end: 42 });
}

#[test]
fn missing_return_type_is_unit() {
    let parsed = parse_source("fn () { }");
    let function = only_function(&parsed);
    assert_eq!(
        function.returns,
        Spanned { value: Type::Named(name("unit")), span: Span { start: 5, end: 5 } }
    );
    assert_eq!(strip(&function.body.value), block(vec![], Expression::Unit));
}

#[test]
fn functions_keep_source_order_and_have_no_name() {
    let parsed = parse_source("fn (a: x) {} fn (b: y, c: z) {} fn () {}");
    assert_eq!(parsed.diagnostics, vec![]);
    let functions = parsed.program.functions();
    assert_eq!(functions.len(), 3);
    assert_eq!(functions[0].1.parameters.len(), 1);
    assert_eq!(functions[1].1.parameters.len(), 2);
    assert_eq!(functions[2].1.parameters.len(), 0);
    assert_eq!(functions[0].0, name(""));
}

#[test]
fn statements_and_control_flow() {
    let parsed = parse_source(
        "fn () { var i = 0 while i < 10 { i = i + 1 } if i == 10 { nil } else { false } }",
    );
    let function = only_function(&parsed);
    assert_eq!(
        strip(&function.body.value),
        block(
            vec![
                Statement::Let {
                    identifier: name("i"),
                    mutability: Mutability::Mutable,
                    initializer: Spanned {
                        value: Expression::Number(Number::Integer(0)),
                        span: Span { start: 0, end: 0 },
                    },
                },
                Statement::Expression(Expression::While {
                    condition: Box::new(Spanned {
                        value: binary(ident("i"), Less, Expression::Number(Number::Integer(10))),
                        span: Span { start: 0, end: 0 },
                    }),
                    then: Box::new(Spanned {
                        value: block(
                            vec![Statement::Assignment {
                                lhs: name("i"),
                                rhs: Spanned {
                                    value: binary(
                                        ident("i"),
                                        Add,
                                        Expression::Number(Number::Integer(1))
                                    ),
                                    span: Span { start: 0, end: 0 },
                                },
                            }],
                            Expression::Unit
                        ),
                        span: Span { start: 0, end: 0 },
                    }),
                }),
            ],
            Expression::If {
                condition: Box::new(Spanned {
                    value: binary(ident("i"), Equals, Expression::Number(Number::Integer(10))),
                    span: Span { start: 0, end: 0 },
                }),
                then: Box::new(Spanned {
                    value: block(vec![], Expression::Nil),
                    span: Span { start: 0, end: 0 },
                }),
                or_else: Box::new(Spanned {
                    value: block(vec![], Expression::Bool(false)),
                    span: Span { start: 0, end: 0 },
                }),
            },
        )
    );
}

#[test]
fn decimal_literal_keeps_its_text() {
    assert_eq!(
        value_of("fn () { -0.50 }"),
        Expression::Number(Number::Decimal("-0.50".to_string()))
    );
    let as_float: f64 = "-0.50".parse().unwrap();
    assert_eq!(as_float, -0.5);
}

#[test]
fn two_errors_in_two_functions_give_two_diagnostics() {
    let source = "fn (a: i32) { let = 1 } fn () { 1 } fn (b c) { 2 }";
    let parsed = parse_source(source);
    assert_eq!(parsed.diagnostics.len(), 2);
    assert_eq!(parsed.program.functions().len(), 1);

    let first = parsed.diagnostics[0];
    assert_eq!(first.span, Span { start: 18, end: 19 });
    assert_eq!(first.expectation, Expectation::LetName);
    assert_eq!(first.expected(), vec![TokenKind::Identifier]);
    assert_eq!(first.label(), "let");
    assert!(first.span.end <= 23);

    let second = parsed.diagnostics[1];
    assert_eq!(second.span, Span { start: 42, end: 43 });
    assert_eq!(second.expectation, Expectation::ParameterColon);
    assert_eq!(second.expected(), vec![TokenKind::Colon]);
    assert_eq!(second.label(), "parameters");
    assert!(second.span.start >= 36);
}

#[test]
fn input_that_ends_early_is_reported_at_its_end() {
    let parsed = parse_source("fn (");
    assert_eq!(parsed.diagnostics.len(), 1);
    assert_eq!(parsed.diagnostics[0].span, Span { start: 4, end: 4 });
    assert_eq!(parsed.diagnostics[0].expectation, Expectation::FirstParameter);
    assert_eq!(
        parsed.diagnostics[0].expected(),
        vec![TokenKind::Identifier, TokenKind::ParenClosed]
    );
}

#[test]
fn stray_tokens_between_functions_are_one_error() {
    let parsed = parse_source("fn () {} 1 2 3 fn () {}");
    assert_eq!(parsed.diagnostics.len(), 1);
    assert_eq!(parsed.diagnostics[0].expectation, Expectation::Function);
    assert_eq!(parsed.diagnostics[0].span, Span { start: 9, end: 10 });
    assert_eq!(parsed.diagnostics[0].label(), "function");
    assert_eq!(parsed.program.functions().len(), 2);
}

#[test]
fn refused_type_is_labelled_type() {
    let parsed = parse_source("fn (a: 1) {}");
    assert_eq!(parsed.diagnostics.len(), 1);
    assert_eq!(parsed.diagnostics[0].label(), "Type");
    assert_eq!(parsed.diagnostics[0].expectation, Expectation::ParameterType);
    let parsed = parse_source("fn () => {}");
    assert_eq!(parsed.diagnostics[0].label(), "Type");
    assert_eq!(parsed.diagnostics[0].expectation, Expectation::ReturnType);
}

#[test]
fn refused_token_in_a_block_is_labelled_block() {
    let parsed = parse_source("fn () { a ] }");
    assert_eq!(parsed.diagnostics.len(), 1);
    let diagnostic = parsed.diagnostics[0];
    assert_eq!(diagnostic.label(), "block");
    assert_eq!(diagnostic.expectation, Expectation::NextStatementOrAssign);
    assert_eq!(diagnostic.span, Span { start: 10, end: 11 });
    let expected = diagnostic.expected();
    assert_eq!(expected.len(), 1 + 14 + 12);
    assert!(expected.contains(&TokenKind::Assign));
    assert!(expected.contains(&TokenKind::Add));
    assert!(expected.contains(&TokenKind::CurlyBraceClose));
    assert!(!expected.contains(&TokenKind::BracketClose));

    let parsed = parse_source("fn () { a + b ] }");
    assert_eq!(parsed.diagnostics[0].expectation, Expectation::NextStatement);
    let parsed = parse_source("fn () { ] }");
    assert_eq!(parsed.diagnostics[0].expectation, Expectation::FirstStatement);
}

#[test]
fn every_expectation_is_reachable() {
    let cases: Vec<(&str, Expectation)> = vec![
        ("nil", Expectation::Function),
        ("fn {", Expectation::ParameterList),
        ("fn (1", Expectation::FirstParameter),
        ("fn (a: b, )", Expectation::NextParameter),
        ("fn (a b)", Expectation::ParameterColon),
        ("fn (a: )", Expectation::ParameterType),
        ("fn (a: b c)", Expectation::ParameterEnd),
        ("fn () nil", Expectation::ReturnOrBody),
        ("fn () => 1", Expectation::ReturnType),
        ("fn () => t nil", Expectation::Body),
        ("fn () { 1 + }", Expectation::Operand),
        ("fn () { (1 }", Expectation::ClosingParenthesis),
        ("fn () { if a nil }", Expectation::ConditionBlock),
        ("fn () { if a { } nil }", Expectation::Else),
        ("fn () { if a { } else nil }", Expectation::ElseBlock),
        ("fn () { ) }", Expectation::FirstStatement),
        ("fn () { 1 ) }", Expectation::NextStatement),
        ("fn () { a ) }", Expectation::NextStatementOrAssign),
        ("fn () { let 1 }", Expectation::LetName),
        ("fn () { let a 1 }", Expectation::LetAssign),
    ];
    for (source, expectation) in cases {
        let parsed = parse_source(source);
        assert_eq!(parsed.diagnostics.len(), 1, "{source}");
        assert_eq!(parsed.diagnostics[0].expectation, expectation, "{source}");
    }
}

#[test]
fn nesting_is_limited() {
    let deep = |n: usize| format!("fn () {{ {}1{} }}", "(".repeat(n), ")".repeat(n));
    let parsed = parse_source(&deep(100));
    assert_eq!(parsed.diagnostics, vec![]);
    let parsed = parse_source(&deep(200));
    assert_eq!(parsed.diagnostics.len(), 1);
    assert_eq!(parsed.diagnostics[0].expectation, Expectation::Nesting);
    assert_eq!(parsed.diagnostics[0].expected(), vec![]);
    assert_eq!(parsed.diagnostics[0].label(), "nesting");
    let parsed = parse_source(&deep(100_000));
    assert_eq!(parsed.diagnostics.len(), 1);
}

#[test]
fn module_parses_tokens() {
    let tokens = lex("fn () { nil }");
    let parsed = module(&tokens);
    assert_eq!(parsed.diagnostics, vec![]);
    assert_eq!(parsed.program.functions().len(), 1);
    let parsed = module(&[]);
    assert_eq!(parsed.diagnostics, vec![]);
    assert_eq!(parsed.program.functions().len(), 0);
}

#[test]
fn function_count_is_the_number_of_fn_tokens() {
    let source = "fn () {} fn (a: b) => c { a } fn () { if a { 1 } else { 2 } }";
    let parsed = parse_source(source);
    assert_eq!(parsed.diagnostics, vec![]);
    let count = lex(source).iter().filter(|t| t.value.kind() == TokenKind::Fn).count();
    assert_eq!(parsed.program.functions().len(), count);
    assert_eq!(count, 3);
}

fn check_nesting(e: &Spanned<Expression>) {
    let span = e.span;
    assert!(span.start <= span.end);
    let inside = |child: &Spanned<Expression>| {
        assert!(span.start <= child.span.start && child.span.end <= span.end);
        check_nesting(child);
    };
    match &e.value {
        Expression::If { condition, then, or_else } => {
            inside(condition);
            inside(then);
            inside(or_else);
            assert!(condition.span.end <= then.span.start);
            assert!(then.span.end <= or_else.span.start);
        }
        Expression::While { condition, then } => {
            inside(condition);
            inside(then);
            assert!(condition.span.end <= then.span.start);
        }
        Expression::Binary { lhs, rhs, .. } => {
            inside(lhs);
            inside(rhs);
            assert!(lhs.span.end <= rhs.span.start);
        }
        Expression::Block { statements, eval } => {
            inside(eval);
            let mut last = span.start;
            for statement in statements {
                assert!(last <= statement.span.start);
                assert!(statement.span.start <= statement.span.end);
                assert!(statement.span.end <= eval.span.start);
                last = statement.span.end;
                match &statement.value {
                    Statement::Let { initializer, .. } => {
                        assert!(statement.span.start <= initializer.span.start);
                        assert!(initializer.span.end <= statement.span.end);
                        check_nesting(initializer);
                    }
                    Statement::Assignment { rhs, .. } => {
                        assert!(statement.span.start <= rhs.span.start);
                        assert!(rhs.span.end <= statement.span.end);
                        check_nesting(rhs);
                    }
                    Statement::Expression(_) => {}
                }
            }
        }
        _ => {}
    }
}

#[test]
fn spans_nest_and_follow_the_text() {
    let source = "fn (a: int, b: int) => int {\n  var i = (a + 1) * 2\n  while i < b { i = i + 1 }\n  \
                  if i == b { { nil } } else { a - -3 }\n}\nfn () { x y }";
    let parsed = parse_source(source);
    assert_eq!(parsed.diagnostics, vec![]);
    let functions = parsed.program.functions();
    assert_eq!(functions.len(), 2);
    let mut last = 0;
    for (_, function) in functions {
        assert!(last <= function.span.start);
        assert!(function.span.end <= source.len());
        assert_eq!(&source[function.span.start..function.span.start + 2], "fn");
        assert_eq!(&source[function.span.end - 1..function.span.end], "}");
        let mut at = function.span.start;
        for parameter in &function.parameters {
            assert!(at <= parameter.name.span.start);
            assert!(parameter.name.span.end <= parameter.ty.span.start);
            at = parameter.ty.span.end;
        }
        assert!(at <= function.returns.span.start);
        assert!(function.returns.span.end <= function.body.span.start);
        assert_eq!(function.body.span.end, function.span.end);
        check_nesting(&function.body);
        last = function.span.end;
    }
    let first = &functions[0].1;
    assert_eq!(&source[first.returns.span.start..first.returns.span.end], "int");
    assert_eq!(
        &source[first.parameters[1].name.span.start..first.parameters[1].ty.span.end],
        "b: int"
    );
}

#[test]
fn diagnostics_come_in_source_order_and_stay_clear_of_functions() {
    let source = "x fn ( fn () { 1 } fn (a) {} 7 fn () { let } fn () { ) } fn (";
    let parsed = parse_source(source);
    let starts: Vec<usize> = parsed.diagnostics.iter().map(|d| d.span.start).collect();
    assert_eq!(starts, vec![0, 7, 24, 43, 53, 61]);
    let functions = parsed.program.functions();
    assert_eq!(functions.len(), 1);
    let read = functions[0].1.span;
    assert_eq!(read, Span { start: 7, end: 18 });
    for pair in parsed.diagnostics.windows(2) {
        assert!(pair[0].span.end <= pair[1].span.start);
    }
    for diagnostic in &parsed.diagnostics {
        let span = diagnostic.span;
        assert!(span.end <= read.start || read.end <= span.start || span.start == read.start);
    }
    let count = lex(source).iter().filter(|t| t.value.kind() == TokenKind::Fn).count();
    assert!(functions.len() <= count);
    assert!(count <= functions.len() + parsed.diagnostics.len());
}

#[test]
fn error_and_string_tokens_are_refused() {
    let parsed = parse_source("fn () { @ }");
    assert_eq!(parsed.diagnostics.len(), 1);
    assert_eq!(parsed.diagnostics[0].span, Span { start: 8, end: 9 });
    assert_eq!(parsed.diagnostics[0].expectation, Expectation::FirstStatement);

    let parsed = parse_source("fn () { a + \"text\" }");
    assert_eq!(parsed.diagnostics.len(), 1);
    assert_eq!(parsed.diagnostics[0].span, Span { start: 12, end: 18 });
    assert_eq!(parsed.diagnostics[0].expectation, Expectation::Operand);
    assert_eq!(parsed.program.functions().len(), 0);
}
