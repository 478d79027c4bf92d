use convert_tex::latex_log::{latex_error_context, split_lines};

#[test]
fn lines_as_std_splits_them() {
    for text in ["", "\n", "a", "a\n", "a\r\nb", "a\rb\n\r\n\nc\r", "\r\n", "é\n\u{2028}x\n"] {
        let expected: Vec<String> = text.lines().map(|line| line.to_string()).collect();
        assert_eq!(split_lines(text), expected, "{:?}", text);
    }
}

#[test]
fn no_report_no_context() {
    assert_eq!(latex_error_context("x.log", "all\nfine\n"), Vec::<String>::new());
    assert_eq!(latex_error_context("x.log", ""), Vec::<String>::new());
}

#[test]
fn context_around_a_report() {
    let mut content = String::new();
    for i in 1..=20 {
        if i == 6 {
            content.push_str("! Undefined control sequence.\n");
        } else {
            content.push_str(&format!("line {}\n", i));
        }
    }
    let context = latex_error_context("work/x/p.log", &content);
    let mut expected = vec![String::new(), "==== LaTeX error context from work/x/p.log ====".to_string()];
    for i in 3..=13 {
        let line = if i == 6 { "! Undefined control sequence.".to_string() } else { format!("line {}", i) };
        expected.push(format!("{:>6}: {}", i, line));
    }
    assert_eq!(context, expected);
}

#[test]
fn context_at_the_ends() {
    let content = "Undefined control sequence\na\nUndefined control sequence";
    let context = latex_error_context("p.log", content);
    let lines = ["     1: Undefined control sequence", "     2: a", "     3: Undefined control sequence"];
    let heading = "==== LaTeX error context from p.log ====";
    let mut expected: Vec<&str> = Vec::new();
    for _ in 0..2 {
        expected.push("");
        expected.push(heading);
        expected.extend_from_slice(&lines);
    }
    assert_eq!(context, expected);
}

#[test]
fn wide_line_numbers() {
    let mut content = "\n".repeat(1_000_000);
    content.push_str("Undefined control sequence");
    let context = latex_error_context("p.log", &content);
    assert_eq!(context.len(), 6);
    assert_eq!(context[2], "999998: ");
    assert_eq!(context[5], "1000001: Undefined control sequence");
}
