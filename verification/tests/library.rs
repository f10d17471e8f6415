use coccinelleforrust::commons::info::ParseError;
use coccinelleforrust::commons::util::{tuple_of_2, tuple_of_3};
use coccinelleforrust::engine::cocci_vs_rs::{types_equal, Environment, MetavarBinding};
use coccinelleforrust::engine::transformation::{getexpandedbindings, transform, transformfile, trimpatchbindings};
use coccinelleforrust::parsing_cocci::ast0::MetavarName;
use coccinelleforrust::parsing_cocci::cleanup_rules::cleanup_rules;
use coccinelleforrust::parsing_cocci::cocci_grep::interpret;
use coccinelleforrust::parsing_cocci::free_vars::free_vars;
use coccinelleforrust::parsing_cocci::get_constants::{
    atoms, build_and, build_or, cnf, common_files, grep_query, interpret_cocci_git_grep, interpret_grep,
    interpret_idutils, mk_false, optimize, run, separated_list, split, wordify, Combine, CombineIterator,
};
use coccinelleforrust::parsing_cocci::parse_cocci::processcocci;
use coccinelleforrust::parsing_cocci::test_exps::set_test_exps;
use coccinelleforrust::parsing_cocci::visitor_ast0::wrap_root;
use coccinelleforrust::parsing_rs::parse_rs::processrs;

fn elem(s: &str) -> Combine {
    Combine::Elem(s.to_string())
}

fn text_of(c: &Combine) -> String {
    c.to_text()
}

// ---------------------------------------------------------------------
// Formulas

#[test]
fn build_and_units_and_idempotence() {
    let a = elem("a");
    assert_eq!(text_of(&build_and(&Combine::True, &a)), "a");
    assert_eq!(text_of(&build_and(&a, &Combine::True)), "a");
    assert_eq!(text_of(&build_and(&Combine::False, &a)), "false");
    assert_eq!(text_of(&build_and(&a, &a)), "a");
    assert_eq!(text_of(&build_or(&Combine::False, &a)), "a");
    assert_eq!(text_of(&build_or(&Combine::True, &a)), "true");
    assert_eq!(text_of(&build_or(&a, &a)), "a");
}

#[test]
fn build_and_orders_operands() {
    let ab = build_and(&elem("b"), &elem("a"));
    assert_eq!(text_of(&ab), "(a & b)");
    let abc = build_and(&ab, &elem("c"));
    assert_eq!(text_of(&abc), "(a & b & c)");
    let merged = build_and(&ab, &build_and(&elem("c"), &elem("a")));
    assert_eq!(text_of(&merged), "(a & b & c)");
}

#[test]
fn build_or_absorbs_and_factors() {
    let ab = build_and(&elem("a"), &elem("b"));
    // a | (a & b) is a
    assert_eq!(text_of(&build_or(&elem("a"), &ab)), "a");
    // (a & b) | (a & c) is a & (b | c)
    let ac = build_and(&elem("a"), &elem("c"));
    assert_eq!(text_of(&build_or(&ab, &ac)), "(a & (b | c))");
}

#[test]
fn combine_iterator_walks_every_formula() {
    let f = Combine::And(vec![elem("a"), Combine::Or(vec![elem("b"), elem("c")])]);
    let mut it = CombineIterator::new(&f);
    let mut seen = vec![];
    while let Some(c) = it.next() {
        seen.push(text_of(c));
    }
    assert_eq!(seen, vec!["(a & (b | c))", "(b | c)", "c", "b", "a"]);
}

#[test]
fn interpret_grep_words() {
    let f = build_and(&elem("zeta"), &build_or(&elem("alpha"), &elem("mid")));
    let w = interpret_grep(true, &f).unwrap().unwrap();
    assert_eq!(w, vec!["alpha".to_string(), "mid".to_string(), "zeta".to_string()]);
    assert!(interpret_grep(true, &Combine::True).unwrap().is_none());
}

#[test]
fn interpret_grep_errors() {
    let not = Combine::Not(Box::new(elem("a")));
    assert_eq!(interpret_grep(false, &not).unwrap_err(), "Not unexpected in grep arg");
    let with_false = Combine::And(vec![elem("a"), Combine::False]);
    assert!(interpret_grep(true, &with_false).unwrap_err().starts_with("No rules apply."));
    let w = interpret_grep(false, &with_false).unwrap().unwrap();
    assert_eq!(w, vec!["False".to_string(), "a".to_string()]);
}

#[test]
fn atoms_and_their_errors() {
    let f = Combine::Or(vec![elem("b"), elem("a"), elem("b")]);
    let a = atoms(&f).unwrap();
    assert_eq!(a.iter().map(text_of).collect::<Vec<_>>(), vec!["a", "b"]);
    assert_eq!(atoms(&Combine::Not(Box::new(elem("x")))).unwrap_err(), "Not unexpected in atoms");
}

#[test]
fn cnf_of_formulas() {
    let f = build_and(&elem("a"), &build_or(&elem("b"), &elem("c")));
    let c = cnf(true, &f).unwrap().unwrap();
    assert_eq!(c.iter().map(text_of).collect::<Vec<_>>(), vec!["(a)", "(b | c)"]);
    assert_eq!(mk_false().iter().map(text_of).collect::<Vec<_>>(), vec!["()"]);
    assert_eq!(cnf(true, &Combine::And(vec![])).unwrap_err(), "and should not be empty");
    assert_eq!(cnf(true, &Combine::Or(vec![])).unwrap_err(), "or should not be empty");
    assert_eq!(cnf(true, &Combine::Not(Box::new(elem("a")))).unwrap_err(), "not unexpected in coccigrep arg");
    assert!(cnf(true, &Combine::False).is_err());
    assert_eq!(cnf(false, &Combine::False).unwrap().unwrap().len(), 1);
    assert_eq!(cnf(true, &Combine::True).unwrap().unwrap().len(), 0);
}

#[test]
fn cnf_gives_up_when_too_large() {
    let mut ors = vec![];
    for i in 0..6 {
        ors.push(Combine::And(vec![elem(&format!("a{}", i)), elem(&format!("b{}", i))]));
    }
    assert!(cnf(true, &Combine::Or(ors)).unwrap().is_none());
}

#[test]
fn optimize_and_split_clauses() {
    let f = build_and(&build_or(&elem("a"), &elem("b")), &elem("c"));
    let c = cnf(true, &f).unwrap().unwrap();
    let o = optimize(&c);
    assert_eq!(o.iter().map(text_of).collect::<Vec<_>>(), vec!["(a | b)", "(c)"]);
    let s = split(&o);
    assert_eq!(s.iter().map(text_of).collect::<Vec<_>>(), vec!["(a | b)", "(c)"]);
}

#[test]
fn query_strings() {
    assert_eq!(wordify("foo"), "\\bfoo\\b");
    let v = vec!["a".to_string(), "b".to_string(), "c".to_string()];
    assert_eq!(separated_list(", ", &v), "a, b, c");
    assert_eq!(separated_list(", ", &vec![]), "");
    let q = vec!["foo".to_string(), "a.b".to_string(), "(x".to_string(), "=>".to_string()];
    assert_eq!(grep_query(&q), "'(\\bfoo\\b | \\ba.b | (x\\b | =>)'");
}

#[test]
fn git_grep_queries() {
    let f = build_and(&elem("a"), &elem("b"));
    let (all, per, args) = interpret_cocci_git_grep(true, &f).unwrap().unwrap();
    assert_eq!(all, "\\ba\\b \\| \\bb\\b");
    assert_eq!(per.len(), args.len());
    assert!(args.iter().all(|a| a.starts_with("\\( -e ")));
    assert!(interpret_cocci_git_grep(true, &Combine::True).unwrap().is_none());
    assert!(interpret_cocci_git_grep(true, &Combine::False).is_err());
}

#[test]
fn formula_text() {
    let f = Combine::Not(Box::new(Combine::Or(vec![elem("a"), Combine::True, Combine::False])));
    assert_eq!(f.to_text(), "!((a | true | false))");
}

#[test]
fn idutils_formula() {
    assert!(interpret_idutils(Combine::True).is_none());
    assert_eq!(text_of(&interpret_idutils(elem("a")).unwrap()), "a");
}

#[test]
fn files_in_every_list() {
    let l1 = vec!["x.rs".to_string(), "y.rs".to_string()];
    let l2 = vec!["y.rs".to_string(), "z.rs".to_string(), "x.rs".to_string(), "y.rs".to_string()];
    let r = common_files(&vec![l1, l2]).unwrap();
    assert_eq!(r, vec!["y.rs".to_string(), "x.rs".to_string()]);
    assert!(common_files(&vec![]).is_none());
}

#[test]
fn cocci_grep_lines() {
    let lines = vec!["let a = foo();".to_string(), "bar(a);".to_string()];
    let regexps = vec!["\\bfoo\\b".to_string(), "\\bbar\\b".to_string()];
    assert!(interpret("foo|bar", &regexps, &lines));
    let missing = vec!["\\bfoo\\b".to_string(), "\\bqux\\b".to_string()];
    assert!(!interpret("foo|bar|qux", &missing, &lines));
    let single = vec!["\\bbar\\b".to_string()];
    assert!(interpret("nothing", &single, &lines));
}

#[test]
fn run_on_rules() {
    let rules = processcocci("@@\n@@\n- foo();\n+ bar();\n").unwrap();
    let r = run(&rules);
    // the conjunction of the parts of the code starts from False
    assert_eq!(text_of(&r), "false");
}

// ---------------------------------------------------------------------
// Rules

#[test]
fn processcocci_rejects_text_before_the_first_rule() {
    assert!(processcocci("x\n@@\n@@\n- foo();\n+ bar();\n").is_err());
}

#[test]
fn cleanup_keeps_applicable_rules() {
    let mut rules = processcocci("@r1@\n@@\n- foo();\n+ bar();\n\n@r2 depends on r1@\n@@\n- baz();\n+ qux();\n").unwrap();
    cleanup_rules(&mut rules);
    assert_eq!(rules.len(), 2);
    let mut again = rules;
    cleanup_rules(&mut again);
    assert_eq!(again.len(), 2);
}

#[test]
fn free_vars_leaves_rules() {
    let mut rules = processcocci("@r1@\nexpression e;\n@@\n- foo(e);\n+ bar(e);\n").unwrap();
    free_vars(&mut rules);
    assert_eq!(rules.len(), 1);
    assert_eq!(rules[0].name, "r1");
}

#[test]
fn test_expressions_are_marked() {
    let mut t = wrap_root("fn f() {\n    if a && b {\n        c();\n    }\n}").unwrap();
    set_test_exps(&mut t);
    fn count(n: &coccinelleforrust::parsing_cocci::ast0::Snode) -> usize {
        (if n.wrapper.true_if_test { 1 } else { 0 }) + n.children.iter().map(count).sum::<usize>()
    }
    // the condition `a && b`, and its operands `a` and `b`
    assert_eq!(count(&t), 3);
}

#[test]
fn tuples_of_elements() {
    let mut v = vec![1, 2, 3];
    {
        let (a, b) = tuple_of_2(&mut v);
        std::mem::swap(a, b);
    }
    assert_eq!(v, vec![2, 1, 3]);
    {
        let (a, _b, c) = tuple_of_3(&mut v);
        *a = 7;
        *c = 9;
    }
    assert_eq!(v, vec![7, 1, 9]);
}

// ---------------------------------------------------------------------
// Transformation

#[test]
fn transform_without_modifiers_changes_nothing() {
    let mut t = processrs("fn main() {\n    foo();\n}\n").unwrap();
    let before = t.getstring();
    assert!(transform(&mut t, &Environment::new()));
    assert_eq!(t.getstring(), before);
}

#[test]
fn transformfile_without_rules_gives_the_parsed_code() {
    let code = "fn main() {\n    foo();\n}\n";
    let out = transformfile(&vec![], code.to_string()).ok().unwrap();
    assert!(out.equals(&processrs(code).unwrap()));
}

#[test]
fn transformfile_reports_a_target_that_does_not_parse() {
    let rules = processcocci("@@\n@@\n- foo();\n+ bar();\n").unwrap();
    match transformfile(&rules, "fn main( {".to_string()) {
        Err(ParseError::TARGETERROR(_, code)) => assert_eq!(code, "fn main( {"),
        _ => panic!("expected a target error"),
    }
}

#[test]
fn processrs_reports_errors() {
    assert!(processrs("fn f( {").is_err());
    assert!(processrs("fn f() {}").is_ok());
}

#[test]
fn rnode_equals_itself() {
    let t = processrs("fn f() { let x = 1; }").unwrap();
    assert!(t.equals(&t));
    let u = processrs("fn f() { let x = 2; }").unwrap();
    assert!(!t.equals(&u));
}

fn binding(rule: &str, var: &str, code: &str) -> MetavarBinding {
    MetavarBinding {
        metavarinfo: MetavarName { rulename: rule.to_string(), varname: var.to_string() },
        rnode: processrs(code).unwrap(),
    }
}

#[test]
fn expanded_bindings_are_all_combinations() {
    let l1 = vec![binding("r", "a", "fn a1() {}"), binding("r", "a", "fn a2() {}")];
    let l2 = vec![binding("r", "b", "fn b1() {}"), binding("r", "b", "fn b2() {}"), binding("r", "b", "fn b3() {}")];
    let e = getexpandedbindings(vec![l1, l2]);
    assert_eq!(e.len(), 6);
    assert!(e.iter().all(|c| c.len() == 2));
    assert_eq!(getexpandedbindings(vec![]).len(), 1);
}

#[test]
fn trimmed_bindings_are_distinct() {
    let mut pbs = vec![
        vec![binding("r", "a", "fn a1() {}"), binding("r", "b", "fn b1() {}")],
        vec![binding("r", "a", "fn a1() {}"), binding("r", "b", "fn b2() {}")],
    ];
    let used = vec![MetavarName { rulename: "r".to_string(), varname: "a".to_string() }];
    trimpatchbindings(&mut pbs, &used);
    assert_eq!(pbs.len(), 1);
    assert_eq!(pbs[0].len(), 1);
    assert_eq!(pbs[0][0].metavarinfo.varname, "a");
}

#[test]
fn types_compare_by_pattern() {
    assert!(types_equal("i32", "i32"));
    assert!(!types_equal("i32", "u64"));
}

// ---------------------------------------------------------------------
// Further laws and helpers

use coccinelleforrust::engine::disjunctions::{getdisjunctions, Disjunction};
use coccinelleforrust::parsing_cocci::logical_lines::set_logilines_aux;
use coccinelleforrust::parsing_rs::format::adjustformat;
use coccinelleforrust::parsing_cocci::ast0::copy_snodes;

#[test]
fn usedafter_names_each_inherited_variable_once() {
    let cocci = "@r1@\nexpression e;\n@@\n- foo(e);\n+ bar(e);\n\n@r2@\nexpression r1.e;\n@@\n- baz(e);\n+ qux(e);\n\n@r3@\nexpression r1.e;\n@@\n- one(e);\n+ two(e);\n";
    let rules = processcocci(cocci).unwrap();
    assert_eq!(rules.len(), 3);
    assert_eq!(rules[0].usedafter.len(), 1);
    assert_eq!(rules[0].usedafter[0].rulename, "r1");
    assert_eq!(rules[0].usedafter[0].varname, "e");
    assert_eq!(rules[2].usedafter.len(), 0);
}

#[test]
fn expansion_without_disjunctions_gives_the_alternatives_back() {
    let t = wrap_root("fn f() {\n    foo();\n    bar();\n}").unwrap();
    let body = copy_snodes(&t.children[0].children[3].children[0].children);
    let n = body.len();
    let d = getdisjunctions(Disjunction(vec![body])).unwrap();
    assert_eq!(d.0.len(), 1);
    assert_eq!(d.0[0].len(), n);
}

#[test]
fn setchildren_splits_an_alternative() {
    let t = wrap_root("fn f() {\n    foo();\n}").unwrap();
    let alt = copy_snodes(&t.children[0].children);
    let mut d = Disjunction(vec![copy_snodes(&alt)]);
    let a = copy_snodes(&t.children[0].children[3].children);
    let choices = Disjunction(vec![copy_snodes(&a), vec![]]);
    d.setchildren(0, 3, choices);
    assert_eq!(d.0.len(), 2);
    assert_eq!(d.0[0][3].children.len(), a.len());
    assert_eq!(d.0[1][3].children.len(), 0);
    let mut same = Disjunction(vec![alt]);
    same.setchildren(0, 3, Disjunction(vec![vec![]]));
    assert_eq!(same.0.len(), 1);
}

#[test]
fn logical_lines_of_a_tree() {
    let mut t = wrap_root("fn f() {\n    foo();\n}").unwrap();
    let r = set_logilines_aux(0, &mut t, 0);
    assert!(r.is_some());
    assert_eq!(t.wrapper.info.pos_info.logical_start, 0);
}

#[test]
fn adjustformat_without_added_code_keeps_the_layout() {
    let mut t = processrs("fn f() {\n    foo();\n}\n").unwrap();
    let f = processrs("fn f() { foo(); }\n").unwrap();
    let before = t.getunformatted();
    assert_eq!(adjustformat(&mut t, &f, None), None);
    assert_eq!(t.getunformatted(), before);
}

#[test]
fn a_rule_needs_code_in_both_buffers() {
    assert_eq!(processcocci("@@\n@@\n- foo();\n").err().unwrap(), "rule without code");
}
