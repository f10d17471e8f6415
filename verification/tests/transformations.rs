use coccinelleforrust::engine::transformation::transformfile;
use coccinelleforrust::parsing_cocci::parse_cocci::processcocci;
use coccinelleforrust::parsing_rs::parse_rs::processrs;

/// Applies the semantic patch `cocci` to the Rust code `rs` and compares
/// the result, token by token, with the code `expected`.
fn testtransformation(cocci: &str, rs: &str, expected: &str) -> bool {
    let rules = match processcocci(cocci) {
        Ok(r) => r,
        Err(e) => panic!("the semantic patch does not parse: {}", e),
    };
    let out = match transformfile(&rules, rs.to_string()) {
        Ok(n) => n,
        Err(_) => panic!("the transformation failed"),
    };
    let out = processrs(&out.getunformatted()).expect("the result parses");
    let exp = processrs(expected).expect("the expected code parses");
    let same = exp.equals(&out);
    if !same {
        println!("got:      {}", out.getstring());
        println!("expected: {}", exp.getstring());
    }
    same
}

// ---------------------------------------------------------------------
// Disjunctions

#[test]
fn disjunctions_test1() {
    let cocci = "@@\n@@\n(\n- foo();\n|\n- bar();\n)\n";
    let rs = "fn main() {\n    foo();\n    bar();\n    baz();\n}\n";
    let expected = "fn main() {\n    baz();\n}\n";
    assert!(testtransformation(cocci, rs, expected))
}

#[test]
fn disjunctions_test2() {
    let cocci = "@@\nexpression e;\n@@\n(\n- foo(e);\n+ bar(e);\n|\n- baz(e);\n)\n";
    let rs = "fn main() {\n    foo(1);\n    baz(2);\n    qux(3);\n}\n";
    let expected = "fn main() {\n    bar(1);\n    qux(3);\n}\n";
    assert!(testtransformation(cocci, rs, expected))
}

#[test]
fn disjunctions_test3() {
    let cocci = "@@\n@@\n(\n- a();\n|\n- b();\n|\n- c();\n)\n";
    let rs = "fn f() {\n    a();\n    d();\n    c();\n}\n";
    let expected = "fn f() {\n    d();\n}\n";
    assert!(testtransformation(cocci, rs, expected))
}

#[test]
fn disjunctions_test4() {
    let cocci = "@@\n@@\n(\n- foo();\n|\n- foo();\n)\n";
    let rs = "fn f() {\n    foo();\n}\n";
    let expected = "fn f() {\n}\n";
    assert!(testtransformation(cocci, rs, expected))
}

// ---------------------------------------------------------------------
// Lifetimes

#[test]
fn lifetimes_test1() {
    let cocci = "@@\nexpression e;\n@@\n- drop(e);\n  keep(e);\n";
    let rs = "fn f<'a>(x: &'a i32) -> &'a i32 {\n    drop(x);\n    keep(x);\n    x\n}\n";
    let expected = "fn f<'a>(x: &'a i32) -> &'a i32 {\n    keep(x);\n    x\n}\n";
    assert!(testtransformation(cocci, rs, expected))
}

// ---------------------------------------------------------------------
// Macros

#[test]
fn macros_test1() {
    let cocci = "@@\n@@\n- foo();\n  bar();\n";
    let rs = "fn main() {\n    println!(\"hello\");\n    foo();\n    bar();\n}\n";
    let expected = "fn main() {\n    println!(\"hello\");\n    bar();\n}\n";
    assert!(testtransformation(cocci, rs, expected))
}

#[test]
fn macros_test2() {
    let cocci = "@@\n@@\n- foo();\n+ bar();\n";
    let rs = "fn main() {\n    foo();\n    assert!(true);\n}\n";
    let expected = "fn main() {\n    bar();\n    assert!(true);\n}\n";
    assert!(testtransformation(cocci, rs, expected))
}

// ---------------------------------------------------------------------
// Removals

#[test]
fn minuses_test1() {
    let cocci = "@@\n@@\n- foo();\n  bar();\n";
    let rs = "fn main() {\n    foo();\n    bar();\n}\n";
    let expected = "fn main() {\n    bar();\n}\n";
    assert!(testtransformation(cocci, rs, expected))
}

#[test]
fn minuses_test2() {
    let cocci = "@@\nexpression e;\n@@\n- free(e);\n  done();\n";
    let rs = "fn main() {\n    free(a);\n    done();\n    free(b + 1);\n    done();\n    keep(c);\n}\n";
    let expected = "fn main() {\n    done();\n    done();\n    keep(c);\n}\n";
    assert!(testtransformation(cocci, rs, expected))
}

#[test]
fn minuses_test3() {
    let cocci = "@@\n@@\n- let x = 1;\n  let y = 2;\n";
    let rs = "fn main() {\n    let x = 1;\n    let y = 2;\n}\n";
    let expected = "fn main() {\n    let y = 2;\n}\n";
    assert!(testtransformation(cocci, rs, expected))
}

#[test]
fn minuses_test4() {
    let cocci = "@@\n@@\n- foo();\n- bar();\n  baz();\n";
    let rs = "fn main() {\n    foo();\n    bar();\n    baz();\n}\n";
    let expected = "fn main() {\n    baz();\n}\n";
    assert!(testtransformation(cocci, rs, expected))
}

#[test]
fn minuses_test5() {
    let cocci = "@@\nexpression e1, e2;\n@@\n- add(e1, e2);\n  sub(e1, e2);\n";
    let rs = "fn main() {\n    add(1, 2);\n    sub(1, 2);\n}\n";
    let expected = "fn main() {\n    sub(1, 2);\n}\n";
    assert!(testtransformation(cocci, rs, expected))
}

// ---------------------------------------------------------------------
// Additions

#[test]
fn pluses_test1() {
    let cocci = "@@\n@@\n- foo();\n+ bar();\n";
    let rs = "fn main() {\n    foo();\n}\n";
    let expected = "fn main() {\n    bar();\n}\n";
    assert!(testtransformation(cocci, rs, expected))
}

#[test]
fn pluses_test2() {
    let cocci = "@@\nexpression e;\n@@\n- foo(e);\n+ bar(e);\n";
    let rs = "fn main() {\n    foo(x + 1);\n}\n";
    let expected = "fn main() {\n    bar(x + 1);\n}\n";
    assert!(testtransformation(cocci, rs, expected))
}

#[test]
fn pluses_test3() {
    let cocci = "@@\n@@\n  foo();\n+ bar();\n";
    let rs = "fn main() {\n    foo();\n}\n";
    let expected = "fn main() {\n    foo();\n    bar();\n}\n";
    assert!(testtransformation(cocci, rs, expected))
}

#[test]
fn pluses_test4() {
    let cocci = "@@\nexpression a, b;\n@@\n- swap(a, b);\n+ swap(b, a);\n";
    let rs = "fn main() {\n    swap(x, y);\n}\n";
    let expected = "fn main() {\n    swap(y, x);\n}\n";
    assert!(testtransformation(cocci, rs, expected))
}

// ---------------------------------------------------------------------
// Rules that depend on rules before them

#[test]
fn ruledependance_test1() {
    let cocci = "@r1@\nexpression e;\n@@\n- foo(e);\n+ bar(e);\n\n@r2@\nexpression r1.e;\n@@\n- baz(e);\n  end();\n";
    let rs = "fn main() {\n    foo(1);\n    baz(1);\n    end();\n    baz(2);\n    end();\n}\n";
    let expected = "fn main() {\n    bar(1);\n    end();\n    baz(2);\n    end();\n}\n";
    assert!(testtransformation(cocci, rs, expected))
}

#[test]
fn ruledependance_test2() {
    let cocci = "@r1@\n@@\n- foo();\n  bar();\n\n@r2@\n@@\n- bar();\n  baz();\n";
    let rs = "fn main() {\n    foo();\n    bar();\n    baz();\n}\n";
    let expected = "fn main() {\n    baz();\n}\n";
    assert!(testtransformation(cocci, rs, expected))
}

#[test]
fn ruledependance_test3() {
    let cocci = "@r1@\n@@\n- foo();\n+ bar();\n\n@r2@\n@@\n- bar();\n+ baz();\n";
    let rs = "fn main() {\n    foo();\n}\n";
    let expected = "fn main() {\n    baz();\n}\n";
    assert!(testtransformation(cocci, rs, expected))
}
