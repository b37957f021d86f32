use rpn::parse;
use rpn::Env;
use rpn::Number;
use rpn::Op;
use rpn::Outcome;
use rpn::ParseError;

/// Prepare a numeric operand the way a host does: bit pattern, saturating
/// 8-bit truncation, decimal text.
fn num(x: f64) -> Number {
    Number { bits: x.to_bits(), key: x as u8, text: format!("{}", x) }
}

fn value_of(op: &Op) -> f64 {
    match op {
        Op::Num(n) => f64::from_bits(n.bits),
        _ => panic!("expected a numeric stack entry"),
    }
}

fn parse_word(w: &str) -> Result<Op, ParseError> {
    parse(w, w.parse::<f64>().ok().map(num))
}

fn push_line(env: &mut Env, line: &str) {
    for w in line.split_whitespace() {
        let op = parse_word(w).expect("unrecognized word");
        env.push(op);
    }
}

/// Call `eval` until it reports neither a reduction nor a pending
/// arithmetic step, computing pending floating-point results on behalf of
/// the engine.
fn reduce(env: &mut Env) -> Outcome {
    loop {
        match env.eval() {
            Outcome::Reduced => continue,
            Outcome::Pending(op, a, b) => {
                let av = f64::from_bits(a.bits);
                let bv = f64::from_bits(b.bits);
                let r = match op {
                    Op::Add => av + bv,
                    Op::Sub => bv - av,
                    Op::Div => bv / av,
                    Op::Mul => av * bv,
                    Op::Pow => av.powf(bv),
                    Op::Log => bv.log(av),
                    _ => unreachable!(),
                };
                env.push(Op::Num(num(r)));
            }
            done => return done,
        }
    }
}

/// Feed a line word by word, reducing after each word, as an interactive
/// driver does.
fn feed(env: &mut Env, line: &str) {
    for w in line.split_whitespace() {
        let op = parse_word(w).expect("unrecognized word");
        env.push(op);
        reduce(env);
    }
}

fn stack_values(env: &Env) -> Vec<f64> {
    env.stack.iter().map(value_of).collect()
}

#[test]
fn make_env() {
    let mut env = Env::new();
    push_line(&mut env, "1 2 + 3 * 2 ^");
    assert_eq!(env.render(), "    1     2     +     3     *     2     ^");
}

#[test]
fn parse_numeric_literal() {
    match parse_word("3.5") {
        Ok(Op::Num(n)) => {
            assert_eq!(f64::from_bits(n.bits), 3.5);
            assert_eq!(n.text, "3.5");
        }
        other => panic!("expected a numeric operation, got {:?}", other),
    }
}

#[test]
fn parse_reports_unrecognized_word() {
    match parse_word("abc") {
        Err(e) => assert_eq!(e.word, "abc"),
        other => panic!("expected a parse error, got {:?}", other),
    }
    match parse_word("1.2.3") {
        Err(e) => assert_eq!(e.word, "1.2.3"),
        other => panic!("expected a parse error, got {:?}", other),
    }
}

#[test]
fn parse_is_case_sensitive() {
    assert!(parse_word("LOG").is_err());
    assert!(parse_word("X").is_err());
}

#[test]
fn non_numeric_operand_is_stuck() {
    let mut env = Env::new();
    env.push(Op::Swp);
    env.push(Op::Num(num(1.0)));
    env.push(Op::Add);
    // Add pops 1 and then the stack operator below it: not a numeric
    // operand, so the step is stuck, and the popped operands stay consumed.
    assert_eq!(env.eval(), Outcome::Stuck);
    assert!(env.is_empty());
}

#[test]
fn parse_operator_words() {
    assert_eq!(parse_word("+"), Ok(Op::Add));
    assert_eq!(parse_word("-"), Ok(Op::Sub));
    assert_eq!(parse_word("*"), Ok(Op::Mul));
    assert_eq!(parse_word("x"), Ok(Op::Mul));
    assert_eq!(parse_word("/"), Ok(Op::Div));
    assert_eq!(parse_word("^"), Ok(Op::Pow));
    assert_eq!(parse_word("%"), Ok(Op::Swp));
    assert_eq!(parse_word("#"), Ok(Op::Dup));
    assert_eq!(parse_word("_"), Ok(Op::Drp));
    assert_eq!(parse_word("log"), Ok(Op::Log));
    assert_eq!(parse_word("get"), Ok(Op::Get));
    assert_eq!(parse_word("set"), Ok(Op::Sto));
}

#[test]
fn add_reduces_to_seven() {
    let mut env = Env::new();
    push_line(&mut env, "3 4 +");
    reduce(&mut env);
    assert_eq!(stack_values(&env), vec![7.0]);
}

#[test]
fn duplicate_top_value() {
    let mut env = Env::new();
    push_line(&mut env, "5 #");
    reduce(&mut env);
    assert_eq!(stack_values(&env), vec![5.0, 5.0]);
}

#[test]
fn subtraction_order_is_b_minus_a() {
    let mut env = Env::new();
    push_line(&mut env, "10 3 -");
    reduce(&mut env);
    assert_eq!(stack_values(&env), vec![7.0]);
}

#[test]
fn division_order_is_b_over_a() {
    let mut env = Env::new();
    push_line(&mut env, "10 4 /");
    reduce(&mut env);
    assert_eq!(stack_values(&env), vec![2.5]);
}

#[test]
fn power_is_a_to_the_b() {
    let mut env = Env::new();
    push_line(&mut env, "2 3 ^");
    reduce(&mut env);
    assert_eq!(stack_values(&env), vec![9.0]);
}

#[test]
fn logarithm_base_a_of_b() {
    let mut env = Env::new();
    push_line(&mut env, "8 2 log");
    reduce(&mut env);
    assert_eq!(stack_values(&env), vec![3.0]);
}

#[test]
fn multiply_by_x_word() {
    let mut env = Env::new();
    push_line(&mut env, "3 4 x");
    reduce(&mut env);
    assert_eq!(stack_values(&env), vec![12.0]);
}

#[test]
fn store_and_load_round_trip() {
    let mut env = Env::new();
    feed(&mut env, "6 2 set 99 2 get");
    // Store removed the 6 from the visible stack; Load restored it under the
    // same key, after the 99 that was pushed in between.
    assert_eq!(stack_values(&env), vec![99.0, 6.0]);
    // Loading consumed the binding.
    assert_eq!(env.regs_len(), 0);
    assert!(!env.is_empty());
}

#[test]
fn store_hides_value_from_stack() {
    let mut env = Env::new();
    feed(&mut env, "6 2 set");
    assert_eq!(stack_values(&env), Vec::<f64>::new());
    assert_eq!(env.regs_len(), 1);
    assert!(!env.is_empty());
}

#[test]
fn load_of_unbound_key_is_stuck() {
    let mut env = Env::new();
    push_line(&mut env, "3 get");
    assert_eq!(reduce(&mut env), Outcome::Stuck);
    // The key was already consumed when the lookup failed.
    assert!(env.is_empty());
}

#[test]
fn store_key_is_saturating_truncation() {
    let mut env = Env::new();
    feed(&mut env, "7 300 set 255 get");
    assert_eq!(stack_values(&env), vec![7.0]);
    assert_eq!(env.regs_len(), 0);
}

#[test]
fn drop_on_empty_stack_is_stuck_and_mutates_nothing() {
    let mut env = Env::new();
    env.push(parse_word("_").unwrap());
    assert_eq!(env.eval(), Outcome::Stuck);
    assert!(env.is_empty());
}

#[test]
fn eval_of_empty_engine_is_stuck() {
    let mut env = Env::new();
    assert_eq!(env.eval(), Outcome::Stuck);
    assert!(env.is_empty());
}

#[test]
fn swap_order() {
    let mut env = Env::new();
    push_line(&mut env, "1 2 %");
    reduce(&mut env);
    assert_eq!(stack_values(&env), vec![2.0, 1.0]);
}

#[test]
fn arithmetic_underflow_consumes_operands() {
    let mut env = Env::new();
    push_line(&mut env, "5 +");
    assert_eq!(reduce(&mut env), Outcome::Stuck);
    assert!(env.is_empty());
}

#[test]
fn bare_numeric_is_no_reduction() {
    let mut env = Env::new();
    push_line(&mut env, "5");
    assert_eq!(env.eval(), Outcome::NoReduction);
    assert_eq!(stack_values(&env), vec![5.0]);
}

#[test]
fn fill_from_pushes_in_order() {
    let mut env = Env::new();
    let ops = vec![Op::Num(num(3.0)), Op::Num(num(4.0)), Op::Add];
    env.fill_from(&ops);
    reduce(&mut env);
    assert_eq!(stack_values(&env), vec![7.0]);
}

#[test]
fn render_registers_sorted_by_key() {
    let mut env = Env::new();
    feed(&mut env, "8 5 set 9 2 set");
    assert_eq!(env.render(), "(2: 9) (5: 8) ");
}

#[test]
fn render_pads_to_width_five() {
    let mut env = Env::new();
    feed(&mut env, "1.25 123456");
    assert_eq!(env.render(), " 1.25 123456");
}

#[test]
fn render_round_trip_reproduces_stack() {
    let mut env = Env::new();
    feed(&mut env, "1.5 2.25 7");
    let rendered = env.render();
    let mut again = Env::new();
    for w in rendered.split_whitespace() {
        again.push(parse_word(w).expect("rendered token must parse"));
    }
    assert_eq!(stack_values(&again), stack_values(&env));
    assert_eq!(again.stack.len(), env.stack.len());
}
