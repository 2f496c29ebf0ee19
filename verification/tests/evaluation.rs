use sheet_shadow_core::coord::{key_of, Key};
use sheet_shadow_core::eval::{compare_criteria, evaluate_formula_mvp, evaluate_numeric_arg, Arith, Ask, Ctx, Outcome, Reply};
use sheet_shadow_core::recalc::Bounds;

fn format_number(value: f64) -> String {
    if value.fract().abs() < 0.0000001 {
        return format!("{}", value as i64);
    }
    let mut text = format!("{value:.10}");
    while text.contains('.') && text.ends_with('0') {
        text.pop();
    }
    if text.ends_with('.') {
        text.pop();
    }
    text
}

fn number(ask: &Ask, i: usize) -> f64 {
    ask.args[i].parse().unwrap()
}

fn answer(ask: &Ask) -> Reply {
    let all: Vec<f64> = ask.args.iter().map(|t| t.parse().unwrap_or(0.0)).collect();
    match ask.op {
        Arith::Evaluate => match meval::eval_str(&ask.args[0]) {
            Ok(value) => Reply::Number(value.to_string()),
            Err(err) => Reply::Failed(err.to_string()),
        },
        Arith::Format => Reply::Number(format_number(number(ask, 0))),
        Arith::Total => Reply::Number(format_number(all.iter().sum())),
        Arith::Average => Reply::Number(format_number(if all.is_empty() {
            0.0
        } else {
            all.iter().sum::<f64>() / all.len() as f64
        })),
        Arith::Max => Reply::Number(format_number(all.into_iter().reduce(f64::max).unwrap_or(0.0))),
        Arith::Min => Reply::Number(format_number(all.into_iter().reduce(f64::min).unwrap_or(0.0))),
        Arith::Compare => {
            let (left, right) = (number(ask, 0), number(ask, 2));
            Reply::Flag(match ask.args[1].as_str() {
                ">=" => left >= right,
                "<=" => left <= right,
                ">" => left > right,
                "<" => left < right,
                _ => (left - right).abs() <= f64::EPSILON,
            })
        }
        Arith::Comparable => Reply::Flag(!(number(ask, 0) - number(ask, 1)).is_nan()),
        Arith::Count => Reply::Count(number(ask, 0) as usize),
        Arith::NonZero => Reply::Flag(number(ask, 0) != 0.0),
        Arith::Round => {
            let factor = 10_f64.powi(number(ask, 1) as i32);
            Reply::Number(format_number((number(ask, 0) * factor).round() / factor))
        }
        Arith::Fixed => {
            let places = number(ask, 1) as usize;
            Reply::Number(format!("{:.places$}", number(ask, 0)))
        }
        Arith::Percent => {
            let places = number(ask, 1) as usize;
            Reply::Number(format!("{:.places$}%", number(ask, 0) * 100.0))
        }
        Arith::Hundredfold => Reply::Number(format_number(number(ask, 0) * 100.0)),
        Arith::Days => Reply::Count((number(ask, 0).floor() as i64).max(0) as usize),
    }
}

fn carry_on<T>(mut request: impl FnMut(&Vec<(Ask, Reply)>, Bounds) -> Outcome<T>) -> Result<T, String> {
    let mut answers: Vec<(Ask, Reply)> = Vec::new();
    let mut bounds = Bounds { fuel: 4, steps: 8 };
    loop {
        match request(&answers, bounds) {
            Outcome::Value(value) => return Ok(value),
            Outcome::Fail(message) => return Err(message),
            Outcome::Need(ask) => {
                let reply = answer(&ask);
                answers.push((ask, reply));
            }
            Outcome::Exhausted => {
                bounds.fuel *= 2;
                bounds.steps *= 2;
            }
        }
    }
}

fn cells() -> Vec<(Key, String)> {
    let mut cells = Vec::new();
    for (row, col, value) in [
        (1, 1, "10"),
        (2, 1, "20"),
        (3, 1, "30"),
        (4, 1, "text"),
        (1, 2, "apple"),
        (2, 2, "pear"),
        (3, 2, "apple"),
        (1, 3, "0.125"),
    ] {
        cells.push((key_of("Data", row, col), value.to_string()));
    }
    cells.push((key_of("Other", 1, 1), "7".to_string()));
    cells
}

fn value(formula: &str) -> Result<String, String> {
    let cells = cells();
    carry_on(|answers, bounds| {
        let c = Ctx { sheet: "Data", cells: &cells, answers };
        evaluate_formula_mvp(formula, &c, bounds.fuel)
    })
}

fn numeric(arg: &str) -> Result<String, String> {
    let cells = cells();
    carry_on(|answers, bounds| {
        let c = Ctx { sheet: "Data", cells: &cells, answers };
        evaluate_numeric_arg(arg, &c, bounds.fuel)
    })
}

fn is(formula: &str, expected: &str) {
    assert_eq!(value(formula), Ok(expected.to_string()), "{formula}");
}

fn fails(formula: &str, message: &str) {
    assert_eq!(value(formula), Err(message.to_string()), "{formula}");
}

#[test]
fn arithmetic_and_references() {
    is("=1+2*3", "7");
    is("=A1", "10");
    is("=A1+A2/4", "15");
    is("=Other!A1*2", "14");
    is("=C1", "0.125");
    is("=C1*2", "0.25");
    is("=Z99", "");
    is("=Z99+1", "1");
    is("=\"plain\"", "plain");
}

#[test]
fn aggregates() {
    is("=SUM(A1:A4)", "60");
    is("=SUM(A1:A3,5)", "65");
    is("=AVERAGE(A1:A3)", "20");
    is("=MAX(A1:A3)", "30");
    is("=MIN(A1:A3)", "10");
    is("=COUNT(A1:A4)", "3");
    is("=COUNTA(A1:A5)", "4");
    is("=SUM(A1:A3)+1", "61");
    is("=AVERAGE(Z1:Z3)", "0");
}

#[test]
fn conditions() {
    is("=IF(A1>5,\"big\",\"small\")", "big");
    is("=IF(A1>50,\"big\",\"small\")", "small");
    is("=IF(B1=\"apple\",1,2)", "1");
    is("=AND(A1>5,A2>5)", "1");
    is("=AND(A1>5,A2>50)", "0");
    is("=OR(A1>50,A2>5)", "1");
    is("=NOT(A1>5)", "0");
    is("=IFERROR(NOSUCH(1),\"safe\")", "safe");
}

#[test]
fn counting_and_summing_by_criteria() {
    assert_eq!(numeric("COUNTIF(B1:B3,\"apple\")"), Ok("2".to_string()));
    assert_eq!(numeric("COUNTIF(A1:A3,\">15\")"), Ok("2".to_string()));
    assert_eq!(numeric("SUMIF(B1:B3,\"apple\",A1:A3)"), Ok("40".to_string()));
    assert_eq!(numeric("SUMIF(A1:A3,\">=20\")"), Ok("50".to_string()));
    fails("=COUNTIF(B1:B3,\"apple\")", "unsupported_formula: IF expects 3 arguments");
    fails("=SUMIF(A1:A3,\">1\")", "unsupported_formula: IF expects 3 arguments");
    is("=SUMIFS(A1:A3,B1:B3,\"apple\",A1:A3,\">15\")", "30");
    is("=COUNTIFS(B1:B3,\"apple\",A1:A3,\">15\")", "1");
    fails(
        "=SUMIFS(A1:A3,B1:B3)",
        "unsupported_formula: SUMIFS expects sum_range plus range/criteria pairs",
    );
}

#[test]
fn texts() {
    is("=LEN(B1)", "5");
    is("=LEFT(B1,2)", "ap");
    is("=RIGHT(B1,2)", "le");
    is("=MID(B1,2,3)", "ppl");
    is("=TRIM(\"  apple \")", "apple");
    is("=CONCAT(B1,\"-\",B2)", "apple-pear");
    is("=B1&\"/\"&B2", "apple/pear");
    is("=VALUE(\"12.50\")", "12.5");
    is("=TEXT(C1,\"0.00\")", "0.12");
    is("=TEXT(C1,\"0.0%\")", "12.5%");
    fails("=VALUE(B1)", "unsupported_formula: VALUE argument is not numeric");
    fails("=TEXT(C1,\"yyyy\")", "unsupported_formula: TEXT format is not supported: yyyy");
    fails("=LEN(B1,B2)", "unsupported_formula: LEN expects 1 argument");
}

#[test]
fn lookups() {
    is("=VLOOKUP(20,A1:B3,2,FALSE)", "pear");
    is("=INDEX(A1:B3,3,1)", "30");
    is("=MATCH(30,A1:A3,0)", "3");
    fails("=MATCH(31,A1:A3,0)", "unsupported_formula: MATCH exact value not found");
}

#[test]
fn lists_of_texts_and_blanks() {
    is("=TEXTJOIN(\"-\",TRUE,B1,Z9,B2)", "apple-pear");
    is("=TEXTJOIN(\"-\",FALSE,B1,Z9,B2)", "apple--pear");
    is("=COUNTBLANK(A1:A6)", "2");
    is("=INDEX(A1:B3,2)", "20");
    is("=INDEX(A1:B3,9,9)", "");
}

#[test]
fn what_functions_expect() {
    fails(
        "=TEXTJOIN(\"-\",TRUE)",
        "unsupported_formula: TEXTJOIN expects delimiter, ignore_empty, and values",
    );
    fails("=VLOOKUP(21,A1:B3,2,FALSE)", "unsupported_formula: VLOOKUP exact match not found");
    fails(
        "=VLOOKUP(20,A1:B3,2,TRUE)",
        "unsupported_formula: VLOOKUP approximate match is not supported",
    );
    fails("=VLOOKUP(20,A1:B3)", "unsupported_formula: VLOOKUP expects 3 or 4 arguments");
    fails("=INDEX(A1:B3)", "unsupported_formula: INDEX expects 2 or 3 arguments");
    fails("=MATCH(30,A1:A3,1)", "unsupported_formula: MATCH approximate match is not supported");
    fails("=MATCH(30)", "unsupported_formula: MATCH expects 2 or 3 arguments");
    fails("=LEFT(B1)", "unsupported_formula: LEFT expects 2 arguments");
    fails("=RIGHT(B1)", "unsupported_formula: RIGHT expects 2 arguments");
    fails("=MID(B1,1)", "unsupported_formula: MID expects 3 arguments");
    fails("=TRIM(B1,B2)", "unsupported_formula: TRIM expects 1 argument");
    fails("=VALUE(B1,B2)", "unsupported_formula: VALUE expects 1 argument");
    fails("=TEXT(C1)", "unsupported_formula: TEXT expects 2 arguments");
    fails("=ROUND(1)", "ROUND expects 2 arguments");
    fails("=IFERROR(1)", "IFERROR expects 2 arguments");
    fails("=COUNTIFS(A1:A2)", "COUNTIFS expects range/criteria pairs");
    fails(
        "=Sales[Amount]",
        "unsupported_formula: structured table references are not yet evaluated",
    );
    assert_eq!(numeric("COUNTIF(A1:A2)"), Err("COUNTIF expects 2 arguments".to_string()));
    assert_eq!(
        numeric("SUMIF(A1:A2)"),
        Err("unsupported_formula: SUMIF expects 2 or 3 arguments".to_string())
    );
}

#[test]
fn rounding() {
    is("=ROUND(2.345,2)", "2.35");
    is("=ROUND(A1/3,0)", "3");
}

#[test]
fn unknown_functions_are_refused() {
    fails("=NOSUCH(A1)", "unsupported_formula: NOSUCH");
}

#[test]
fn an_evaluation_says_what_it_needs() {
    let cells = cells();
    let answers = Vec::new();
    let c = Ctx { sheet: "Data", cells: &cells, answers: &answers };
    match evaluate_formula_mvp("=SUM(A1:A2)", &c, 100) {
        Outcome::Need(ask) => {
            assert!(ask.op == Arith::Total);
            assert_eq!(ask.args, vec!["10".to_string(), "20".to_string()]);
        }
        _ => panic!("the total is missing"),
    }
    assert!(matches!(evaluate_formula_mvp("=SUM(A1:A2)", &c, 0), Outcome::Exhausted));
}

#[test]
fn an_evaluation_that_is_over_stays_as_it_is() {
    let cells = cells();
    let mut answers = Vec::new();
    loop {
        let c = Ctx { sheet: "Data", cells: &cells, answers: &answers };
        match evaluate_formula_mvp("=CONCAT(\"sum \",SUM(A1:A2))", &c, 50) {
            Outcome::Need(ask) => {
                let reply = answer(&ask);
                answers.push((ask, reply));
            }
            Outcome::Value(text) => {
                assert_eq!(text, "sum 30");
                break;
            }
            _ => panic!("the evaluation came to no end"),
        }
    }
    let spare = Ask { op: Arith::Round, args: vec!["1.5".to_string(), "0".to_string()] };
    answers.push((spare, Reply::Number("2".to_string())));
    for fuel in [50, 51, 500] {
        let c = Ctx { sheet: "Data", cells: &cells, answers: &answers };
        match evaluate_formula_mvp("=CONCAT(\"sum \",SUM(A1:A2))", &c, fuel) {
            Outcome::Value(text) => assert_eq!(text, "sum 30"),
            _ => panic!("the value is gone"),
        }
    }
}

#[test]
fn references_in_quotes_are_replaced() {
    is("=\"A1\"", "10");
    is("=\"A\"", "A");
}

fn compares(value: &str, op: &str, rhs: &str) -> bool {
    let cells = cells();
    let r = carry_on(|answers, _| {
        let c = Ctx { sheet: "Data", cells: &cells, answers };
        compare_criteria(&c, value, op, rhs)
    });
    match r {
        Ok(b) => b,
        Err(message) => panic!("{message}"),
    }
}

#[test]
fn values_are_equal_or_not() {
    for (a, b) in [("1", "1"), ("1", "2"), ("1.0", "1"), ("x", "x"), ("x", "y"), ("1", "x"), ("inf", "1")] {
        assert_ne!(compares(a, "=", b), compares(a, "<>", b), "{a} {b}");
    }
    assert!(compares("1.0", "=", "1"));
    assert!(compares("2", "<>", "\"1\""));
    for (a, b) in [("nan", "1"), ("nan", "nan"), ("inf", "inf")] {
        assert!(!compares(a, "=", b) && !compares(a, "<>", b), "{a} {b}");
    }
    assert!(!compares("x", ">", "1") && !compares("1", "<=", "x"));
}

#[test]
fn references_behind_other_letters() {
    is("=CONCAT(\"é€😀\",A1)", "é€😀10");
}
