use compilador::production::{Production, ProductionItem, ProductionType};
use compilador::semantic::error::SemanticErrorType;
use compilador::semantic::graph::{Graph, Node};
use compilador::semantic::utils::{append_id, production_as_leaf, production_as_node};
use compilador::semantic::SemanticAnalyzer;
use compilador::symbols::{SymbolsTable, VariableType};
use compilador::token::{token_type_to_str, Token, TokenType};

fn tok(kind: TokenType, text: &str) -> Token {
    Token { token_type: kind, lexeme: text.to_string(), line: 1, col: 1 }
}

#[test]
fn graph_reuses_equal_nodes() {
    let mut g = Graph::new();
    let one = tok(TokenType::Entero, "1");
    let a = g.add(Node::from_num(&one));
    let b = g.add(Node::from_num(&one));
    assert_eq!(a, b);
    let plus = tok(TokenType::OperadorAritA, "+");
    let s1 = g.add(Node::from_op(&plus, a, b));
    let s2 = g.add(Node::from_op(&plus, a, b));
    assert_eq!(s1, s2);
    assert_ne!(s1, a);
    assert_eq!(g.table.len(), 2);
    assert_eq!(g.get(&s1).unwrap().index, 1);
    assert!(g.get(&7).is_none());
}

#[test]
fn variable_nodes_use_storage_names() {
    let x = tok(TokenType::Id, "x");
    let n = Node::from_var(&x, 4);
    assert_eq!(n.lexeme, "_x");
    assert_eq!(n.left, 4);
    assert!(n.is_leaf);
    assert_eq!(append_id("abc"), "_abc");
}

#[test]
fn symbol_table_first_declaration_wins() {
    let mut table = SymbolsTable::new();
    let x = tok(TokenType::Id, "x");
    let y = tok(TokenType::Id, "y");
    assert_eq!(table.add(&x, &VariableType::Entero), 0);
    assert_eq!(table.add(&y, &VariableType::Real), 1);
    assert_eq!(table.add(&x, &VariableType::Real), 0);
    assert_eq!(table.table.len(), 2);
    assert_eq!(table.get(&0).unwrap().variable_type, VariableType::Entero);
    assert_eq!(table.get_from_token(&y).unwrap().index, 1);
    table.clear();
    assert!(table.get_from_token(&x).is_none());
}

#[test]
fn leaf_where_node_expected_is_unexpected() {
    let item = ProductionItem::Leaf(tok(TokenType::Id, "x"));
    match production_as_node(&item) {
        Err(e) => match e.error_type {
            SemanticErrorType::Unexpected(t) => assert_eq!(t.lexeme, "x"),
            _ => panic!("wrong error"),
        },
        Ok(_) => panic!("expected an error"),
    }
}

#[test]
fn node_where_leaf_expected_is_bad_format() {
    let item = ProductionItem::Production(Production::new(ProductionType::Factor));
    match production_as_leaf(&item) {
        Err(e) => match e.error_type {
            SemanticErrorType::BadFormat(p) => assert_eq!(p.production_type, ProductionType::Factor),
            _ => panic!("wrong error"),
        },
        Ok(_) => panic!("expected an error"),
    }
}

#[test]
fn malformed_statement_list_is_bad_format() {
    let mut analyzer = SemanticAnalyzer::new();
    let mut assign = Production::new(ProductionType::Asignar);
    assign.push_leaf(tok(TokenType::Id, "x"));
    let mut orden = Production::new(ProductionType::Orden);
    orden.push_node(assign);
    match analyzer.orden(&orden) {
        Err(e) => match e.error_type {
            SemanticErrorType::BadFormat(p) => assert_eq!(p.production_type, ProductionType::Asignar),
            _ => panic!("wrong error"),
        },
        Ok(_) => panic!("expected an error"),
    }
}

#[test]
fn counters_name_temporaries_and_labels() {
    let mut analyzer = SemanticAnalyzer::new();
    assert_eq!(analyzer.next_temp(), "__temp_1");
    assert_eq!(analyzer.next_temp(), "__temp_2");
    assert_eq!(analyzer.current_temp(), "__temp_2");
    assert_eq!(analyzer.next_jump(), "jmp_1");
    for _ in 0..9 {
        analyzer.next_jump();
    }
    assert_eq!(analyzer.next_jump(), "jmp_11");
}

#[test]
fn token_kind_descriptions() {
    assert_eq!(token_type_to_str(&TokenType::Semicolon), ";");
    assert_eq!(token_type_to_str(&TokenType::ParentesisAbierto), "(");
    assert_eq!(token_type_to_str(&TokenType::OperadorAsig), ":=");
    assert_eq!(token_type_to_str(&TokenType::EOF), "EOF");
}

#[test]
fn tree_dump_nests_children() {
    let mut num = Production::new(ProductionType::Numeros);
    num.push_leaf(tok(TokenType::Entero, "1"));
    assert_eq!(num.to_string(""), "├ numeros\n│├ 1");
    let mut op = Production::new(ProductionType::Operador);
    op.push_node(num);
    assert_eq!(op.to_string(""), "├ operador\n│├ numeros\n││├ 1");
    let empty = Production::new(ProductionType::RestExp);
    assert_eq!(empty.to_string(">"), ">├ rest_expr");
    assert_eq!(compilador::production::production_type_to_str(&ProductionType::Declaracion), "declaración");
}

#[test]
fn error_messages() {
    let mut analyzer = SemanticAnalyzer::new();
    let e = analyzer.parse("begin entero x end").unwrap_err();
    assert_eq!(e.message(), "Caracter inesperado 'end', en la linea 1 columna 16, se esperaba: ';'");
    let e = analyzer.parse("begin entero x;\nx := y;\nend").unwrap_err();
    assert_eq!(e.message(), "Utilizacion de una variable no declarada 'y' en la linea 2 columna 6\n");
    let bad = compilador::semantic::error::SemanticError::from_format(Production::new(ProductionType::Factor));
    assert_eq!(bad.message(), "Producción con formato inesperado factor");
    let unexpected = compilador::semantic::error::SemanticError::from_unexpected(tok(TokenType::Id, "q"));
    assert_eq!(unexpected.message(), "Caracter inesperado 'q' en la linea 1 columna 1\n");
}

#[test]
fn program_needs_a_declaration() {
    let mut analyzer = SemanticAnalyzer::new();
    match analyzer.parse("begin end").unwrap_err().error_type {
        SemanticErrorType::Sintactic(e) => {
            assert_eq!(e.token.lexeme, "end");
            assert_eq!(e.expected, "tipo");
        }
        _ => panic!("expected a syntax error"),
    }
}

#[test]
fn empty_input_is_rejected_at_end_of_input() {
    let mut analyzer = SemanticAnalyzer::new();
    match analyzer.parse("").unwrap_err().error_type {
        SemanticErrorType::Sintactic(e) => {
            assert_eq!(e.token.token_type, TokenType::EOF);
            assert_eq!(e.expected, "begin");
        }
        _ => panic!("expected a syntax error"),
    }
}

#[test]
fn parser_can_run_twice() {
    let mut parser = compilador::sintactic::SintacticAnalyzer::new("begin entero x; x := 1; end");
    let first = parser.analize().unwrap();
    let second = parser.analize().unwrap();
    assert_eq!(first.to_string(""), second.to_string(""));
}

#[test]
fn failing_numeral_consumes_nothing() {
    let mut parser = compilador::sintactic::SintacticAnalyzer::new("x 1");
    assert!(parser.numeros().is_err());
    assert_eq!(parser.current, 0);
}

#[test]
fn reading_end_of_input_stays_there() {
    let mut parser = compilador::sintactic::SintacticAnalyzer::new("");
    let mut p = Production::new(ProductionType::Programa);
    assert!(parser.push_token_if(&TokenType::EOF, &mut p).is_ok());
    assert_eq!(parser.current, 0);
    assert_eq!(p.items.len(), 1);
    assert!(parser.orden().is_err());
    assert_eq!(parser.current, 0);
}
