use notation::converter::pre_order;

#[test]
fn math_solver_it_works() {
    let mut input = "A+B*C";
    let mut got = pre_order(input);
    assert_eq!(got, "+A*BC");

    input = "A*B+C";
    got = pre_order(input);
    assert_eq!(got, "+*ABC");
}

#[test]
fn it_works_2() {
    let input = "A*B+C+D+E*F*G+H";
    let got = pre_order(input);
    assert_eq!(got, "++++*ABCD**EFGH");
}

#[test]
fn it_works_3() {
    let input = "(A*B+C)-(D+E)*F*(G+H)-U+K*L*Z";
    let got = pre_order(input);
    assert_eq!(got, "+--+*ABC**+DEF+GHU**KLZ");
}

#[test]
fn empty_input_gives_empty_output() {
    assert_eq!(pre_order(""), "");
}

#[test]
fn single_operand_is_returned_as_is() {
    assert_eq!(pre_order("X"), "X");
}

#[test]
fn one_operator_each() {
    assert_eq!(pre_order("A+B"), "+AB");
    assert_eq!(pre_order("A-B"), "-AB");
    assert_eq!(pre_order("A*B"), "*AB");
    assert_eq!(pre_order("A/B"), "/AB");
}

#[test]
fn same_tier_chains_group_left() {
    assert_eq!(pre_order("A-B-C"), "--ABC");
    assert_eq!(pre_order("A/B/C"), "//ABC");
}

#[test]
fn parenthesized_group_is_converted_first() {
    assert_eq!(pre_order("(A+B)*C"), "*+ABC");
}

#[test]
fn unbalanced_input_does_not_fault() {
    // Behavior on unbalanced parentheses is best-effort: the call must
    // return rather than panic.
    let lone_close = pre_order("A+B)");
    assert_eq!(lone_close.len(), 4);
    let lone_open = pre_order("(A+B");
    assert_eq!(lone_open, "+AB");
}

fn operand_value(c: char) -> i64 {
    c as i64
}

fn eval_prefix_at(chars: &[char], pos: &mut usize) -> i64 {
    let c = chars[*pos];
    *pos += 1;
    match c {
        '+' => {
            let a = eval_prefix_at(chars, pos);
            let b = eval_prefix_at(chars, pos);
            a + b
        }
        '-' => {
            let a = eval_prefix_at(chars, pos);
            let b = eval_prefix_at(chars, pos);
            a - b
        }
        '*' => {
            let a = eval_prefix_at(chars, pos);
            let b = eval_prefix_at(chars, pos);
            a * b
        }
        '/' => {
            let a = eval_prefix_at(chars, pos);
            let b = eval_prefix_at(chars, pos);
            a / b
        }
        _ => operand_value(c),
    }
}

fn eval_prefix(s: &str) -> i64 {
    let chars: Vec<char> = s.chars().collect();
    let mut pos = 0;
    let v = eval_prefix_at(&chars, &mut pos);
    assert_eq!(pos, chars.len());
    v
}

fn eval_infix_factor(chars: &[char], pos: &mut usize) -> i64 {
    if chars[*pos] == '(' {
        *pos += 1;
        let v = eval_infix_expr(chars, pos);
        assert_eq!(chars[*pos], ')');
        *pos += 1;
        v
    } else {
        let v = operand_value(chars[*pos]);
        *pos += 1;
        v
    }
}

fn eval_infix_term(chars: &[char], pos: &mut usize) -> i64 {
    let mut v = eval_infix_factor(chars, pos);
    while *pos < chars.len() && (chars[*pos] == '*' || chars[*pos] == '/') {
        let op = chars[*pos];
        *pos += 1;
        let rhs = eval_infix_factor(chars, pos);
        v = if op == '*' { v * rhs } else { v / rhs };
    }
    v
}

fn eval_infix_expr(chars: &[char], pos: &mut usize) -> i64 {
    let mut v = eval_infix_term(chars, pos);
    while *pos < chars.len() && (chars[*pos] == '+' || chars[*pos] == '-') {
        let op = chars[*pos];
        *pos += 1;
        let rhs = eval_infix_term(chars, pos);
        v = if op == '+' { v + rhs } else { v - rhs };
    }
    v
}

fn eval_infix(s: &str) -> i64 {
    let chars: Vec<char> = s.chars().collect();
    let mut pos = 0;
    let v = eval_infix_expr(&chars, &mut pos);
    assert_eq!(pos, chars.len());
    v
}

#[test]
fn round_trip_preserves_value() {
    // Evaluating the prefix output with a prefix evaluator reproduces the
    // value of the original infix expression, operands valued by code point.
    let inputs = [
        "A",
        "A+B",
        "A-B-C",
        "A+B*C",
        "A*B+C",
        "A/B/C",
        "A*B+C+D+E*F*G+H",
        "(A+B)*C",
        "A+B*C-D",
        "(A*B+C)-(D+E)*F*(G+H)-U+K*L*Z",
        "Z-(A+B)/C",
    ];
    for input in inputs {
        let prefix = pre_order(input);
        assert_eq!(eval_prefix(&prefix), eval_infix(input), "input {}", input);
    }
}
