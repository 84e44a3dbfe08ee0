use compilador::lexic::LexicAnalyzer;
use compilador::semantic::expresion::ExpressionAnalyzer;
use compilador::semantic::graph::Node;
use compilador::symbols::{SymbolsTable, VariableType};
use compilador::production::{ProductionItem, ProductionType};
use compilador::semantic::error::SemanticErrorType;
use compilador::semantic::SemanticAnalyzer;
use compilador::sintactic::SintacticAnalyzer;
use compilador::token::{Token, TokenType};

fn compile(src: &str) -> Result<String, SemanticErrorType> {
    let mut analyzer = SemanticAnalyzer::new();
    analyzer.parse(src).map_err(|e| e.error_type)
}

fn lines(text: &str) -> Vec<&str> {
    text.lines().collect()
}

#[test]
fn same_source_compiles_to_same_text() {
    let src = "begin entero a, b; a := (a + b) * (a + b); if (a < 3) b := 1; else b := 2; end; end";
    let first = compile(src).unwrap();
    let second = compile(src).unwrap();
    assert_eq!(first, second);
    let mut analyzer = SemanticAnalyzer::new();
    let a = analyzer.parse(src).unwrap();
    let b = analyzer.parse(src).unwrap();
    assert_eq!(a, b);
    assert_eq!(a, first);
}

#[test]
fn same_bad_source_fails_the_same_way() {
    let src = "begin entero x; x := y + 1; end";
    let first = compile(src).unwrap_err();
    let second = compile(src).unwrap_err();
    match (first, second) {
        (SemanticErrorType::Undefined(a), SemanticErrorType::Undefined(b)) => {
            assert_eq!(a.lexeme, b.lexeme);
            assert_eq!((a.line, a.col), (b.line, b.col));
        }
        _ => panic!("expected two undefined-variable errors"),
    }
}

#[test]
fn common_subexpression_is_computed_once() {
    let text = compile("begin entero a, x; x := a+a; end").unwrap();
    assert_eq!(
        lines(&text),
        vec!["__temp_1 := _a", "__temp_2 := __temp_1 + __temp_1", "_x := __temp_2"]
    );
}

#[test]
fn repeated_product_is_shared() {
    let text = compile("begin entero a, b, x; x := a*b + a*b; end").unwrap();
    assert_eq!(
        lines(&text),
        vec![
            "__temp_1 := _a",
            "__temp_2 := _b",
            "__temp_3 := __temp_1 * __temp_2",
            "__temp_4 := __temp_3 + __temp_3",
            "_x := __temp_4",
        ]
    );
}

#[test]
fn declaration_indices_follow_first_declaration() {
    let mut analyzer = SemanticAnalyzer::new();
    analyzer.parse("begin entero x, y; real y, z; x := 1; end").unwrap();
    let names: Vec<&str> = analyzer.table.table.iter().map(|v| v.token.lexeme.as_str()).collect();
    assert_eq!(names, vec!["x", "y", "z"]);
    let indices: Vec<usize> = analyzer.table.table.iter().map(|v| v.index).collect();
    assert_eq!(indices, vec![0, 1, 2]);
    let y = Token { token_type: TokenType::Id, lexeme: "y".to_string(), line: 9, col: 9 };
    assert_eq!(analyzer.table.get_hash_if_set(&y), Some(1));
    let z = Token { token_type: TokenType::Id, lexeme: "z".to_string(), line: 1, col: 1 };
    assert_eq!(analyzer.table.get_hash_if_set(&z), Some(2));
    let w = Token { token_type: TokenType::Id, lexeme: "w".to_string(), line: 1, col: 1 };
    assert_eq!(analyzer.table.get_hash_if_set(&w), None);
    // The first declaration's type stays.
    assert_eq!(analyzer.table.table[1].variable_type, compilador::symbols::VariableType::Entero);
    assert_eq!(analyzer.table.table[2].variable_type, compilador::symbols::VariableType::Real);
}

#[test]
fn subtraction_groups_to_the_left() {
    let text = compile("begin entero x; x := 1-2-3; end").unwrap();
    assert_eq!(
        lines(&text),
        vec![
            "__temp_1 := 1",
            "__temp_2 := 2",
            "__temp_3 := __temp_1 - __temp_2",
            "__temp_4 := 3",
            "__temp_5 := __temp_3 - __temp_4",
            "_x := __temp_5",
        ]
    );
}

#[test]
fn division_groups_to_the_left_and_binds_tighter() {
    let text = compile("begin entero x; x := 8/4/2+1; end").unwrap();
    assert_eq!(
        lines(&text),
        vec![
            "__temp_1 := 8",
            "__temp_2 := 4",
            "__temp_3 := __temp_1 / __temp_2",
            "__temp_4 := 2",
            "__temp_5 := __temp_3 / __temp_4",
            "__temp_6 := 1",
            "__temp_7 := __temp_5 + __temp_6",
            "_x := __temp_7",
        ]
    );
}

#[test]
fn undeclared_target_is_accepted() {
    let text = compile("begin entero x; y := x+1; end").unwrap();
    assert_eq!(
        lines(&text),
        vec!["__temp_1 := _x", "__temp_2 := 1", "__temp_3 := __temp_1 + __temp_2", "_y := __temp_3"]
    );
}

#[test]
fn undeclared_operand_is_rejected() {
    match compile("begin entero x; x := y+1; end") {
        Err(SemanticErrorType::Undefined(t)) => {
            assert_eq!(t.lexeme, "y");
            assert_eq!(t.token_type, TokenType::Id);
            assert_eq!((t.line, t.col), (1, 22));
        }
        other => panic!("unexpected result {:?}", other),
    }
}

fn labels_are_well_formed(text: &str) {
    let all = lines(text);
    let mut jumps = 0;
    for line in &all {
        if let Some(pos) = line.find("jump to ") {
            jumps += 1;
            let target = &line[pos + "jump to ".len()..];
            let defined = all.iter().filter(|l| **l == format!("{}:", target)).count();
            assert_eq!(defined, 1, "label {} in {:?}", target, all);
        }
    }
    assert!(jumps > 0);
}

#[test]
fn while_loop_code() {
    let text = compile("begin entero i; while (i < 10) i := i + 1; endwhile; end").unwrap();
    assert_eq!(
        lines(&text),
        vec![
            "jmp_1:",
            "if false _i < 10 jump to jmp_2",
            "__temp_1 := _i",
            "__temp_2 := 1",
            "__temp_3 := __temp_1 + __temp_2",
            "_i := __temp_3",
            "jump to jmp_1",
            "jmp_2:",
            "",
        ]
    );
    labels_are_well_formed(&text);
}

#[test]
fn if_else_code() {
    let text = compile("begin entero a; if (a = 1) a := 2; else a := 3; end; end").unwrap();
    assert_eq!(
        lines(&text),
        vec![
            "if false _a = 1 jump to jmp_1",
            "__temp_1 := 2",
            "_a := __temp_1",
            "jump to jmp_2",
            "jmp_1:",
            "__temp_2 := 3",
            "_a := __temp_2",
            "jmp_2:",
            "",
        ]
    );
    labels_are_well_formed(&text);
}

#[test]
fn if_without_else_places_its_label_at_the_end() {
    let text = compile("begin real r; if (r >= 2.5) r := 0; end; end").unwrap();
    assert_eq!(
        lines(&text),
        vec!["if false _r >= 2.5 jump to jmp_1", "__temp_1 := 0", "_r := __temp_1", "jmp_1:", ""]
    );
}

#[test]
fn nested_control_flow_labels_are_well_formed() {
    let src = "begin entero a, b;\n while (a < 10)\n  if (b <> a) b := b + 1; else a := a + 1; end;\n  while (b > 0) b := b - 1; endwhile;\n endwhile;\n if (a <= b) a := 0; end;\nend";
    let text = compile(src).unwrap();
    labels_are_well_formed(&text);
    assert!(text.contains("jmp_6:"));
}

#[test]
fn missing_semicolon_reports_the_token_found() {
    match compile("begin entero x end") {
        Err(SemanticErrorType::Sintactic(e)) => {
            assert_eq!(e.token.lexeme, "end");
            assert_eq!(e.token.token_type, TokenType::End);
            assert_eq!((e.token.line, e.token.col), (1, 16));
            assert_eq!(e.expected, ";");
        }
        other => panic!("unexpected result {:?}", other),
    }
}

#[test]
fn syntax_error_position_on_a_later_line() {
    match compile("begin\n  entero x;\n  x := ;\nend") {
        Err(SemanticErrorType::Sintactic(e)) => {
            assert_eq!(e.token.lexeme, ";");
            assert_eq!((e.token.line, e.token.col), (3, 8));
            assert_eq!(e.expected, "número entero o real");
        }
        other => panic!("unexpected result {:?}", other),
    }
}

#[test]
fn trailing_tokens_are_rejected() {
    match compile("begin entero x; x:=1; end garbage") {
        Err(SemanticErrorType::Sintactic(e)) => {
            assert_eq!(e.token.lexeme, "garbage");
            assert_eq!(e.token.token_type, TokenType::Id);
            assert_eq!(e.expected, "EOF");
        }
        other => panic!("unexpected result {:?}", other),
    }
    assert!(compile("begin entero x; x:=1; end").is_ok());
}

#[test]
fn bad_statement_start_is_reported() {
    match compile("begin entero x; 5 := x; end") {
        Err(SemanticErrorType::Sintactic(e)) => {
            assert_eq!(e.token.lexeme, "5");
            assert_eq!(e.expected, "if, while o una asignación");
        }
        other => panic!("unexpected result {:?}", other),
    }
}

#[test]
fn while_needs_endwhile() {
    match compile("begin entero i; while (i < 1) i := 1; ) ; end") {
        Err(SemanticErrorType::Sintactic(e)) => {
            assert_eq!(e.token.lexeme, ")");
            assert_eq!(e.expected, "endwhile");
        }
        other => panic!("unexpected result {:?}", other),
    }
}

#[test]
fn scanner_tokens_and_positions() {
    let mut lexic = LexicAnalyzer::new("x := 3.14;\n  y<=7");
    let expected = [
        (TokenType::Id, "x", 1, 1),
        (TokenType::OperadorAsig, ":=", 1, 3),
        (TokenType::Real, "3.14", 1, 6),
        (TokenType::Semicolon, ";", 1, 10),
        (TokenType::Id, "y", 2, 3),
        (TokenType::OperadorCondicion, "<=", 2, 4),
        (TokenType::Entero, "7", 2, 6),
        (TokenType::EOF, "\0", 2, 6),
    ];
    for (kind, lexeme, line, col) in expected {
        let t = lexic.next_token();
        assert_eq!(t.token_type, kind);
        assert_eq!(t.lexeme, lexeme);
        assert_eq!((t.line, t.col), (line, col));
    }
    let again = lexic.next_token();
    assert_eq!(again.token_type, TokenType::EOF);
}

#[test]
fn scanner_words_and_operators() {
    let mut lexic = LexicAnalyzer::new("begin entero real if else while endwhile end x1 + - * / <> = > ( ) , . : ?");
    let kinds = [
        TokenType::Begin,
        TokenType::Tipo,
        TokenType::Tipo,
        TokenType::If,
        TokenType::Else,
        TokenType::While,
        TokenType::Endwhile,
        TokenType::End,
        TokenType::Id,
        TokenType::OperadorAritA,
        TokenType::OperadorAritA,
        TokenType::OperadorAritB,
        TokenType::OperadorAritB,
        TokenType::OperadorCondicion,
        TokenType::OperadorCondicion,
        TokenType::OperadorCondicion,
        TokenType::ParentesisAbierto,
        TokenType::ParentesisCerrado,
        TokenType::Coma,
        TokenType::Punto,
        TokenType::Unknown,
        TokenType::Unknown,
        TokenType::EOF,
    ];
    for kind in kinds {
        assert_eq!(lexic.next_token().token_type, kind);
    }
}

#[test]
fn parse_tree_shape() {
    let mut parser = SintacticAnalyzer::new("begin entero x; x := (1); end");
    let tree = parser.analize().unwrap();
    assert_eq!(tree.production_type, ProductionType::Programa);
    assert_eq!(tree.items.len(), 4);
    match &tree.items[0] {
        ProductionItem::Leaf(t) => assert_eq!(t.lexeme, "begin"),
        _ => panic!("expected a leaf"),
    }
    match &tree.items[2] {
        ProductionItem::Production(p) => assert_eq!(p.production_type, ProductionType::Ordenes),
        _ => panic!("expected a node"),
    }
}

#[test]
fn parenthesised_expression_adds_no_node() {
    let text = compile("begin entero x; x := ((x)); end").unwrap();
    assert_eq!(lines(&text), vec!["__temp_1 := _x", "_x := __temp_1"]);
}

#[test]
fn temporaries_keep_counting_across_statements() {
    let text = compile("begin entero x; x := 1; x := 1; end").unwrap();
    assert_eq!(lines(&text), vec!["__temp_1 := 1", "_x := __temp_1", "__temp_2 := 1", "_x := __temp_2"]);
}

fn node(item: &ProductionItem) -> &compilador::production::Production {
    match item {
        ProductionItem::Production(p) => p,
        ProductionItem::Leaf(_) => panic!("expected a node"),
    }
}

#[test]
fn assignment_text_leaves_its_line_open() {
    let mut parser = SintacticAnalyzer::new("begin entero x; y := x; end");
    let tree = parser.analize().unwrap();
    let mut analyzer = SemanticAnalyzer::new();
    analyzer.declaraciones(node(&tree.items[1])).unwrap();
    let ordenes = node(&tree.items[2]);
    let orden = node(&ordenes.items[0]);
    let asignar = node(&orden.items[0]);
    assert_eq!(analyzer.asignar(asignar).unwrap(), "__temp_1 := _x\n_y := __temp_1");
    assert_eq!(analyzer.current_temp, 1);
    assert_eq!(analyzer.orden(orden).unwrap(), "__temp_2 := _x\n_y := __temp_2\n");
}

#[test]
fn dag_of_a_plus_a_has_two_nodes() {
    let mut parser = SintacticAnalyzer::new("begin entero a; a := a+a; end");
    let tree = parser.analize().unwrap();
    let asignar = node(&node(&node(&tree.items[2]).items[0]).items[0]);
    let expr = node(&asignar.items[2]);
    let mut table = SymbolsTable::new();
    let a = Token { token_type: TokenType::Id, lexeme: "a".to_string(), line: 1, col: 14 };
    let h = table.add(&a, &VariableType::Entero);
    let mut an = ExpressionAnalyzer::from(&table);
    let r = an.expresion_arit(expr).unwrap();
    assert_eq!(an.graph.table.len(), 2);
    assert_eq!(r, 1);
    assert_eq!(an.graph.table[0].node.lexeme, "_a");
    assert_eq!(an.graph.table[0].node.left, h);
    let plus = &an.graph.get(&r).unwrap().node;
    assert_eq!(plus.lexeme, "+");
    assert!(!plus.is_leaf);
    assert_eq!((plus.left, plus.right), (0, 0));
}

#[test]
fn dag_of_one_minus_two_minus_three_groups_left() {
    let mut parser = SintacticAnalyzer::new("begin entero x; x := 1-2-3; end");
    let tree = parser.analize().unwrap();
    let asignar = node(&node(&node(&tree.items[2]).items[0]).items[0]);
    let expr = node(&asignar.items[2]);
    let mut an = ExpressionAnalyzer::from(&SymbolsTable::new());
    let r = an.expresion_arit(expr).unwrap();
    let nodes: Vec<(String, bool, u64, u64)> = an
        .graph
        .table
        .iter()
        .map(|n| (n.node.lexeme.clone(), n.node.is_leaf, n.node.left, n.node.right))
        .collect();
    assert_eq!(
        nodes,
        vec![
            ("1".to_string(), true, 0, 0),
            ("2".to_string(), true, 0, 0),
            ("-".to_string(), false, 0, 1),
            ("3".to_string(), true, 0, 0),
            ("-".to_string(), false, 2, 3),
        ]
    );
    assert_eq!(r, 4);
}

#[test]
fn expression_tail_combines_before_recursing() {
    let mut parser = SintacticAnalyzer::new("begin entero x; x := 1-2-3; end");
    let tree = parser.analize().unwrap();
    let asignar = node(&node(&node(&tree.items[2]).items[0]).items[0]);
    let expr = node(&asignar.items[2]);
    let tail = node(&expr.items[1]);
    let mut an = ExpressionAnalyzer::from(&SymbolsTable::new());
    let one = Token { token_type: TokenType::Entero, lexeme: "1".to_string(), line: 1, col: 22 };
    let h1 = an.graph.add(Node::from_num(&one));
    let r = an.rest_expr(tail, h1).unwrap();
    let top = &an.graph.get(&r).unwrap().node;
    let left = &an.graph.get(&top.left).unwrap().node;
    assert_eq!(left.lexeme, "-");
    assert_eq!(left.left, h1);
    assert_eq!(an.graph.get(&left.right).unwrap().node.lexeme, "2");
    assert_eq!(an.graph.get(&top.right).unwrap().node.lexeme, "3");
}
