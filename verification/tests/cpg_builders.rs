use apex::cpg::go_builder::{build_go_cpg, GoCpgBuilder};
use apex::cpg::graph::{Cpg, CpgBuilder, CtrlKind, EdgeKind, NodeKind};
use apex::cpg::js_builder::{build_js_cpg, JsCpgBuilder};
use apex::types::Language;

fn method_names(cpg: &Cpg) -> Vec<String> {
    cpg.nodes()
        .iter()
        .filter_map(|(_, k)| match k {
            NodeKind::Method { name, .. } => Some(name.clone()),
            _ => None,
        })
        .collect()
}

fn call_names(cpg: &Cpg) -> Vec<String> {
    cpg.nodes()
        .iter()
        .filter_map(|(_, k)| match k {
            NodeKind::Call { name, .. } => Some(name.clone()),
            _ => None,
        })
        .collect()
}

fn param_names(cpg: &Cpg) -> Vec<String> {
    cpg.nodes()
        .iter()
        .filter_map(|(_, k)| match k {
            NodeKind::Parameter { name, .. } => Some(name.clone()),
            _ => None,
        })
        .collect()
}

fn assignment_lhs(cpg: &Cpg) -> Vec<String> {
    cpg.nodes()
        .iter()
        .filter_map(|(_, k)| match k {
            NodeKind::Assignment { lhs, .. } => Some(lhs.clone()),
            _ => None,
        })
        .collect()
}

fn cfg_edges(cpg: &Cpg) -> usize {
    cpg.edges().iter().filter(|(_, _, k)| matches!(k, EdgeKind::Cfg)).count()
}

// ── Go ──

#[test]
fn go_builder_parses_http_handler() {
    let source = "\nfunc handler(w http.ResponseWriter, r *http.Request) {\n\tid := r.URL.Query().Get(\"id\")\n\tdb.Query(id)\n}\n";
    let cpg = build_go_cpg(source, "handler.go");
    let names = method_names(&cpg);
    assert!(names.contains(&"handler".to_string()), "should parse handler func; got {:?}", names);
    let params = param_names(&cpg);
    assert!(params.contains(&"w".to_string()), "should have param w; got {:?}", params);
    assert!(params.contains(&"r".to_string()), "should have param r; got {:?}", params);
}

#[test]
fn go_builder_taint_flow_query_to_db() {
    let source = "\nfunc query(w http.ResponseWriter, r *http.Request) {\n\tid := r.URL.Query().Get(\"id\")\n\tdb.Query(id)\n}\n";
    let cpg = build_go_cpg(source, "query.go");
    let assigns = assignment_lhs(&cpg);
    assert!(assigns.contains(&"id".to_string()), "should have assignment for id; got {:?}", assigns);
    let calls = call_names(&cpg);
    assert!(calls.contains(&"db.Query".to_string()), "should have db.Query call; got {:?}", calls);
}

#[test]
fn go_builder_short_declaration_assignment() {
    let source = "\nfunc foo() {\n\tx := 42\n\ty := \"hello\"\n}\n";
    let cpg = build_go_cpg(source, "foo.go");
    let assigns = assignment_lhs(&cpg);
    assert!(assigns.contains(&"x".to_string()), "should have x assignment");
    assert!(assigns.contains(&"y".to_string()), "should have y assignment");
}

#[test]
fn go_builder_normal_assignment() {
    let source = "\nfunc foo() {\n\tvar x int\n\tx = 5\n}\n";
    let cpg = build_go_cpg(source, "foo.go");
    let assigns = assignment_lhs(&cpg);
    assert!(assigns.contains(&"x".to_string()), "should have x assignment");
}

#[test]
fn go_builder_parses_package_calls() {
    let source = "\nfunc foo() {\n\texec.Command(\"ls\", \"-la\")\n\thttp.Get(\"http://example.com\")\n}\n";
    let cpg = build_go_cpg(source, "foo.go");
    let calls = call_names(&cpg);
    assert!(
        calls.contains(&"exec.Command".to_string()) || calls.contains(&"http.Get".to_string()),
        "should detect package calls; got {:?}",
        calls
    );
}

#[test]
fn go_builder_parses_control_structures() {
    let source = "\nfunc foo(err error) {\n\tif err != nil {\n\t\treturn\n\t}\n\tfor i := 0; i < 10; i++ {\n\t}\n}\n";
    let cpg = build_go_cpg(source, "foo.go");
    let has_if = cpg
        .nodes()
        .iter()
        .any(|(_, k)| matches!(k, NodeKind::ControlStructure { kind: CtrlKind::If, .. }));
    assert!(has_if, "should detect if structure");
    let has_for = cpg
        .nodes()
        .iter()
        .any(|(_, k)| matches!(k, NodeKind::ControlStructure { kind: CtrlKind::For, .. }));
    assert!(has_for, "should detect for structure");
}

#[test]
fn go_builder_creates_cfg_edges() {
    let source = "\nfunc foo() {\n\ta := 1\n\tb := 2\n\tc := 3\n}\n";
    let cpg = build_go_cpg(source, "foo.go");
    let cfg_count = cfg_edges(&cpg);
    assert!(cfg_count >= 2, "expected >=2 CFG edges, got {cfg_count}");
}

#[test]
fn go_builder_language_is_go() {
    let builder = GoCpgBuilder;
    assert_eq!(builder.language(), Language::Go);
}

#[test]
fn go_builder_build_produces_nodes() {
    let builder = GoCpgBuilder;
    let cpg = builder.build("func greet(name string) {\n\tfmt.Println(name)\n}\n", "greet.go");
    assert!(cpg.node_count() > 0);
}

#[test]
fn go_builder_receiver_method() {
    let source = "\nfunc (h *Handler) ServeHTTP(w http.ResponseWriter, r *http.Request) {\n\tid := r.FormValue(\"id\")\n\tdb.Exec(id)\n}\n";
    let cpg = build_go_cpg(source, "handler.go");
    let names = method_names(&cpg);
    assert!(names.contains(&"ServeHTTP".to_string()), "should parse receiver method; got {:?}", names);
}

#[test]
fn go_builder_exact_graph_of_small_function() {
    let source = "func f(a int) {\n\tx := g(a, 1)\n\treturn x\n}\n";
    let cpg = build_go_cpg(source, "f.go");
    let nodes = cpg.nodes();
    assert_eq!(nodes.len(), 8);
    assert!(matches!(&nodes[0].1, NodeKind::Method { name, file, line: 1 } if name == "f" && file == "f.go"));
    assert!(matches!(&nodes[1].1, NodeKind::Parameter { name, index: 0 } if name == "a"));
    assert!(matches!(&nodes[2].1, NodeKind::Assignment { lhs, line: 2 } if lhs == "x"));
    assert!(matches!(&nodes[3].1, NodeKind::Call { name, line: 2 } if name == "g"));
    assert!(matches!(&nodes[4].1, NodeKind::Identifier { name, line: 2 } if name == "a"));
    assert!(matches!(&nodes[5].1, NodeKind::Literal { value, line: 2 } if value == "1"));
    assert!(matches!(&nodes[6].1, NodeKind::Return { line: 3 }));
    assert!(matches!(&nodes[7].1, NodeKind::Identifier { name, line: 3 } if name == "x"));
    let edges = cpg.edges();
    assert_eq!(
        edges.clone(),
        vec![
            (0, 1, EdgeKind::Ast),
            (3, 4, EdgeKind::Argument { index: 0 }),
            (3, 5, EdgeKind::Argument { index: 1 }),
            (2, 3, EdgeKind::Argument { index: 0 }),
            (0, 2, EdgeKind::Ast),
            (6, 7, EdgeKind::Argument { index: 0 }),
            (0, 6, EdgeKind::Ast),
            (2, 6, EdgeKind::Cfg),
        ]
    );
    assert_eq!(cpg.edges_from(0).len(), 3);
}

#[test]
fn go_builder_top_level_lines_outside_functions_are_skipped() {
    let cpg = build_go_cpg("package main\n\nimport \"fmt\"\n", "m.go");
    assert_eq!(cpg.node_count(), 0);
}

// ── JavaScript ──

#[test]
fn js_builder_parses_express_handler() {
    let source = "\nfunction handler(req, res) {\n  const id = req.query.id;\n  res.send(id);\n}\n";
    let cpg = build_js_cpg(source, "handler.js");
    let names = method_names(&cpg);
    assert!(names.contains(&"handler".to_string()), "should parse handler function");
    let params = param_names(&cpg);
    assert!(params.contains(&"req".to_string()));
    assert!(params.contains(&"res".to_string()));
    let calls = call_names(&cpg);
    assert!(!calls.is_empty(), "should produce Call nodes");
    let assigns = assignment_lhs(&cpg);
    assert!(!assigns.is_empty(), "should produce Assignment nodes");
}

#[test]
fn js_builder_taint_flow_query_to_db() {
    let source = "\nfunction query(req, res) {\n  const x = req.query.id;\n  db.query(x);\n}\n";
    let cpg = build_js_cpg(source, "query.js");
    let assigns = assignment_lhs(&cpg);
    assert!(assigns.contains(&"x".to_string()), "should have assignment for x");
    let calls = call_names(&cpg);
    assert!(calls.contains(&"db.query".to_string()), "should have db.query call");
}

#[test]
fn js_builder_parses_const_let_var_assignments() {
    let source = "\nfunction foo() {\n  const a = 1;\n  let b = \"hello\";\n  var c = a;\n}\n";
    let cpg = build_js_cpg(source, "foo.js");
    let assigns = assignment_lhs(&cpg);
    assert!(assigns.contains(&"a".to_string()));
    assert!(assigns.contains(&"b".to_string()));
    assert!(assigns.contains(&"c".to_string()));
}

#[test]
fn js_builder_parses_method_calls() {
    let source = "\nfunction foo() {\n  obj.method(x);\n  console.log(\"hello\");\n}\n";
    let cpg = build_js_cpg(source, "foo.js");
    let calls = call_names(&cpg);
    assert!(
        calls.contains(&"obj.method".to_string()) || calls.contains(&"console.log".to_string()),
        "should detect method calls"
    );
}

#[test]
fn js_builder_parses_control_structures() {
    let source = "\nfunction foo(x) {\n  if (x > 0) {\n    return x;\n  }\n  for (let i = 0; i < 10; i++) {\n  }\n  while (x > 0) {\n  }\n}\n";
    let cpg = build_js_cpg(source, "foo.js");
    let has_if = cpg
        .nodes()
        .iter()
        .any(|(_, k)| matches!(k, NodeKind::ControlStructure { kind: CtrlKind::If, .. }));
    assert!(has_if, "should detect if structure");
}

#[test]
fn js_builder_creates_cfg_edges() {
    let source = "\nfunction foo() {\n  const a = 1;\n  const b = 2;\n  const c = 3;\n}\n";
    let cpg = build_js_cpg(source, "foo.js");
    let cfg_count = cfg_edges(&cpg);
    assert!(cfg_count >= 2, "expected >=2 CFG edges, got {cfg_count}");
}

#[test]
fn js_builder_creates_ast_edges() {
    let source = "\nfunction foo() {\n  const x = 1;\n}\n";
    let cpg = build_js_cpg(source, "foo.js");
    let method_id = cpg
        .nodes()
        .iter()
        .find_map(|(id, k)| if matches!(k, NodeKind::Method { .. }) { Some(*id) } else { None })
        .expect("method node");
    let ast_count = cpg
        .edges_from(method_id)
        .iter()
        .filter(|(_, _, k)| matches!(k, EdgeKind::Ast))
        .count();
    assert!(ast_count >= 1, "expected AST edges from method, got {ast_count}");
}

#[test]
fn js_builder_language_is_javascript() {
    let builder = JsCpgBuilder;
    assert_eq!(builder.language(), Language::JavaScript);
}

#[test]
fn js_builder_build_produces_nodes() {
    let builder = JsCpgBuilder;
    let cpg = builder.build("function greet(name) { console.log(name); }", "greet.js");
    assert!(cpg.node_count() > 0, "CpgBuilder::build should produce at least one node");
}

#[test]
fn js_builder_arrow_function_creates_method() {
    let source = "\nconst handler = (req, res) => {\n  const id = req.query.id;\n}\n";
    let cpg = build_js_cpg(source, "arrow.js");
    assert!(cpg.node_count() > 0, "should produce nodes for arrow function");
}

#[test]
fn js_builder_call_with_multiple_args() {
    let source = "\nfunction foo() {\n  bar(x, y, z);\n}\n";
    let cpg = build_js_cpg(source, "foo.js");
    let call_id = cpg
        .nodes()
        .iter()
        .find_map(|(id, k)| match k {
            NodeKind::Call { name, .. } if name == "bar" => Some(*id),
            _ => None,
        })
        .expect("bar call node");
    let arg_edges = cpg
        .edges_from(call_id)
        .iter()
        .filter(|(_, _, k)| matches!(k, EdgeKind::Argument { .. }))
        .count();
    assert_eq!(arg_edges, 3, "bar(x, y, z) should have 3 argument edges");
}

#[test]
fn js_builder_arrow_params_and_compound_assignment() {
    let source = "const f = async (a, b) => a + b\nfunction g(p: number = 1, q) {\n  total += p;\n  return;\n}\n";
    let cpg = build_js_cpg(source, "x.js");
    assert_eq!(method_names(&cpg), vec!["f".to_string(), "g".to_string()]);
    assert_eq!(param_names(&cpg), vec!["a".to_string(), "b".to_string(), "p".to_string(), "q".to_string()]);
    assert_eq!(assignment_lhs(&cpg), vec!["total".to_string()]);
}
