use loxlib::expr::{visit_expr, Expr, Visitor, VisitorPrinter};
use loxlib::token::{Item, NumberValue, Token};

fn number(mantissa: u64, scale: usize) -> Token {
    Token::Number(NumberValue { mantissa, scale })
}

#[test]
fn print_visit() {
    let mut visitor = VisitorPrinter {};
    let node = Expr::Binary(
        Box::new(Expr::Unary(
            Token::Minus,
            Box::new(Expr::Literal(number(123, 0))),
        )),
        Token::Star,
        Box::new(Expr::Grouping(Box::new(Expr::Literal(number(4567, 2))))),
    );
    let string_ast = VisitorPrinter::print(&mut visitor, &node);

    assert_eq!("(* (- 123) (group 45.67))", string_ast);
}

#[test]
fn print_literal_alone() {
    let printer = VisitorPrinter {};
    assert_eq!(printer.print(&Expr::Literal(number(7, 0))), "7");
}

#[test]
fn print_nested_groupings() {
    let printer = VisitorPrinter {};
    let node = Expr::Grouping(Box::new(Expr::Grouping(Box::new(Expr::Literal(number(
        5, 1,
    ))))));
    assert_eq!(printer.print(&node), "(group (group 0.5))");
}

#[test]
fn print_binary_of_literals() {
    let printer = VisitorPrinter {};
    let node = Expr::Binary(
        Box::new(Expr::Literal(number(1, 0))),
        Token::Plus,
        Box::new(Expr::Literal(number(2, 0))),
    );
    assert_eq!(printer.print(&node), "(+ 1 2)");
}

#[test]
fn tokens_without_printed_form_render_as_placeholder() {
    let printer = VisitorPrinter {};
    let node = Expr::Binary(
        Box::new(Expr::Literal(number(1, 0))),
        Token::LeftParen,
        Box::new(Expr::Literal(number(2, 0))),
    );
    assert_eq!(printer.print(&node), "(Any 1 2)");
}

#[test]
fn visit_expr_dispatches_through_the_trait() {
    let printer: VisitorPrinter = Visitor::<String>::new();
    let node = Expr::Unary(Token::Minus, Box::new(Expr::Literal(number(9, 0))));
    let rendered: String = visit_expr(&printer, &node);
    assert_eq!(rendered, "(- 9)");
}

#[test]
fn token_to_string_operators_and_numbers() {
    assert_eq!(Token::EqualEqual.to_string(), "==");
    assert_eq!(Token::Equal.to_string(), "=");
    assert_eq!(Token::Star.to_string(), "*");
    assert_eq!(Token::Minus.to_string(), "-");
    assert_eq!(Token::Plus.to_string(), "+");
    assert_eq!(Token::LeftBrace.to_string(), "Any");
    assert_eq!(Token::Fun.to_string(), "Any");
    assert_eq!(number(123, 0).to_string(), "123");
    assert_eq!(number(4567, 2).to_string(), "45.67");
    assert_eq!(number(5, 3).to_string(), "0.005");
    assert_eq!(number(0, 0).to_string(), "0");
    assert_eq!(number(150, 2).to_string(), "1.50");
}

#[test]
fn expr_to_string_names_the_shape() {
    let node = Expr::Unary(Token::Minus, Box::new(Expr::Literal(number(1, 0))));
    assert_eq!(node.to_string(), "Unary");
    assert_eq!(Expr::Literal(number(1, 0)).to_string(), "Literal");
}

#[test]
fn item_fields_are_as_constructed() {
    let item = Item::new(String::from("fun"), Token::Fun, 7);
    assert_eq!(item.lexeme, "fun");
    assert_eq!(item.token, Token::Fun);
    assert_eq!(item.line, 7);
}
