use infix_to_postfix::translator::translate;

/// An expression of single digits, as a tree.
enum Tree {
    Digit(u8),
    Group(Box<Tree>),
    Binary(Box<Tree>, char, Box<Tree>),
}

fn apply(op: char, a: f64, b: f64) -> f64 {
    match op {
        '+' => a + b,
        '-' => a - b,
        '*' => a * b,
        '/' => a / b,
        _ => unreachable!(),
    }
}

fn value(tree: &Tree) -> f64 {
    match tree {
        Tree::Digit(d) => f64::from(*d),
        Tree::Group(inner) => value(inner),
        Tree::Binary(left, op, right) => apply(*op, value(left), value(right)),
    }
}

fn level(tree: &Tree) -> u8 {
    match tree {
        Tree::Binary(_, '+', _) | Tree::Binary(_, '-', _) => 0,
        Tree::Binary(_, _, _) => 1,
        _ => 2,
    }
}

/// The tree as a line: parentheses where the grammar needs them.
fn text(tree: &Tree) -> String {
    match tree {
        Tree::Digit(d) => d.to_string(),
        Tree::Group(inner) => format!("({})", text(inner)),
        Tree::Binary(left, op, right) => {
            let own = level(tree);
            let l = if level(left) < own { format!("({})", text(left)) } else { text(left) };
            let r = if level(right) <= own { format!("({})", text(right)) } else { text(right) };
            format!("{}{}{}", l, op, r)
        }
    }
}

fn evaluate_postfix(postfix: &str) -> Option<f64> {
    let mut stack: Vec<f64> = Vec::new();
    for c in postfix.chars() {
        if let Some(d) = c.to_digit(10) {
            stack.push(f64::from(d));
        } else {
            let b = stack.pop()?;
            let a = stack.pop()?;
            stack.push(apply(c, a, b));
        }
    }
    if stack.len() == 1 {
        stack.pop()
    } else {
        None
    }
}

struct Source(u64);

impl Source {
    fn next(&mut self, bound: u64) -> u64 {
        self.0 = self.0.wrapping_mul(6364136223846793005).wrapping_add(1442695040888963407);
        (self.0 >> 33) % bound
    }
}

fn grow(source: &mut Source, depth: u32) -> Tree {
    let choice = if depth == 0 { 0 } else { source.next(7) };
    match choice {
        0 | 1 => Tree::Digit(source.next(10) as u8),
        2 => Tree::Group(Box::new(grow(source, depth - 1))),
        n => {
            let op = ['+', '-', '*', '/'][(n - 3) as usize];
            let left = grow(source, depth - 1);
            let right = grow(source, depth - 1);
            Tree::Binary(Box::new(left), op, Box::new(right))
        }
    }
}

fn same(a: f64, b: f64) -> bool {
    a == b || (a.is_nan() && b.is_nan())
}

#[test]
fn postfix_evaluates_to_the_value_of_the_line() {
    assert_eq!(evaluate_postfix(&translate("1+2*3").unwrap()), Some(7.0));
    assert_eq!(evaluate_postfix(&translate("(1+2)*3").unwrap()), Some(9.0));
    assert_eq!(evaluate_postfix(&translate("1+2-3").unwrap()), Some(0.0));
    assert_eq!(evaluate_postfix(&translate("8/4/2").unwrap()), Some(1.0));
    assert_eq!(evaluate_postfix(&translate("8-(4-2)").unwrap()), Some(6.0));
    assert_eq!(evaluate_postfix(&translate("9-8*(7-6/3)+5").unwrap()), Some(-26.0));
    assert_eq!(evaluate_postfix(&translate("7").unwrap()), Some(7.0));
}

#[test]
fn postfix_evaluates_to_the_value_of_generated_expressions() {
    let mut source = Source(2024);
    for _ in 0..500 {
        let tree = grow(&mut source, 5);
        let line = text(&tree);
        let postfix = translate(&line).unwrap();
        let got = evaluate_postfix(&postfix).unwrap();
        assert!(same(got, value(&tree)), "{} -> {}", line, postfix);
    }
}

#[test]
fn numbers_of_several_digits_run_together_in_postfix() {
    let postfix = translate("12+3").unwrap();
    assert_eq!(postfix, "123+");
    assert_eq!(evaluate_postfix(&postfix), None);
}

/// Operands and operators in postfix text balance: there is one operand
/// more than there are operators, and in front of every operator there are
/// at least two operands more than operators.
fn well_formed_postfix(postfix: &str) -> bool {
    let mut depth: i64 = 0;
    for c in postfix.chars() {
        if c.is_ascii_digit() {
            depth += 1;
        } else {
            if depth < 2 {
                return false;
            }
            depth -= 1;
        }
    }
    depth == 1
}

fn lines(alphabet: &[char], length: usize) -> Vec<String> {
    let mut all = vec![String::new()];
    let mut last = vec![String::new()];
    for _ in 0..length {
        let mut next = Vec::new();
        for line in &last {
            for c in alphabet {
                let mut longer = line.clone();
                longer.push(*c);
                next.push(longer);
            }
        }
        all.extend(next.iter().cloned());
        last = next;
    }
    all
}

#[test]
fn every_accepted_line_gives_well_formed_postfix() {
    let mut accepted = 0;
    for line in lines(&['1', '2', '+', '*', '(', ')'], 6) {
        if let Ok(postfix) = translate(&line) {
            let single = !line.contains("11")
                && !line.contains("12")
                && !line.contains("21")
                && !line.contains("22");
            if single {
                assert!(well_formed_postfix(&postfix), "{} -> {}", line, postfix);
                assert!(evaluate_postfix(&postfix).is_some(), "{} -> {}", line, postfix);
            }
            assert!(!postfix.is_empty(), "{}", line);
            accepted += 1;
        }
    }
    assert!(accepted > 100);
}

#[test]
fn lines_without_an_operand_are_not_accepted() {
    for line in ["", "+", "-1", "+1", "1+", "1+*2", "1**2", "()", "(+)", "1+()", "(1+)*2"] {
        assert!(translate(line).is_err(), "{}", line);
    }
}
