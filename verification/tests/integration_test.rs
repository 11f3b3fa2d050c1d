use cfg_generator::build_cfg;
use cfg_generator::render_mermaid;
use cfg_generator::Function;
use cfg_generator::Statement;

#[test]
fn test_simple_if() {
    let func = Function {
        name: "max".to_string(),
        body: vec![Statement::If {
            condition: "a > b".to_string(),
            then_branch: vec![Statement::Simple {
                code: "return a;".to_string(),
                line: 3,
            }],
            else_branch: Some(vec![Statement::Simple {
                code: "return b;".to_string(),
                line: 5,
            }]),
            line: 2,
        }],
    };

    let cfg = build_cfg(func);
    let output = render_mermaid(&cfg);

    assert!(output.contains("START: max"));
    assert!(output.contains("END: max"));
    assert!(output.contains("a &gt; b") || output.contains("a > b"));
    assert!(output.contains("true"));
    assert!(output.contains("false"));
}

#[test]
fn test_sequential_statements() {
    let func = Function {
        name: "process".to_string(),
        body: vec![
            Statement::Simple {
                code: "int x = 10;".to_string(),
                line: 3,
            },
            Statement::Simple {
                code: "x = x + 1;".to_string(),
                line: 4,
            },
            Statement::Simple {
                code: "printf(\"%d\\n\", x);".to_string(),
                line: 5,
            },
        ],
    };

    let cfg = build_cfg(func);
    let output = render_mermaid(&cfg);

    println!("{}", output);

    assert!(output.contains("int x = 10"));
    assert!(output.contains("x = x + 1"));
    assert!(output.contains("printf"));
}
