use assembly_plugin::sat_solver::{is_sat, literals_in_range, SatSolver, CNF};

#[test]
fn test_empty_formula() {
    let cnf: CNF = vec![];
    assert!(is_sat(&cnf, 0));
}

#[test]
fn test_single_variable() {
    // (x1)
    let cnf = vec![vec![1]];
    assert!(is_sat(&cnf, 1));
}

#[test]
fn test_contradiction() {
    // (x1) AND (NOT x1)
    let cnf = vec![vec![1], vec![-1]];
    assert!(!is_sat(&cnf, 1));
}

#[test]
fn test_simple_sat() {
    // (x1 OR x2) AND (NOT x1 OR x3) AND (NOT x2 OR NOT x3)
    let cnf = vec![vec![1, 2], vec![-1, 3], vec![-2, -3]];
    assert!(is_sat(&cnf, 3));
}

#[test]
fn test_simple_unsat() {
    // (x1 OR x2) AND (x1 OR NOT x2) AND (NOT x1 OR x2) AND (NOT x1 OR NOT x2)
    let cnf = vec![vec![1, 2], vec![1, -2], vec![-1, 2], vec![-1, -2]];
    assert!(!is_sat(&cnf, 2));
}

#[test]
fn test_unit_propagation() {
    // (x1) AND (NOT x1 OR x2) should propagate to x1=true, x2=true
    let cnf = vec![vec![1], vec![-1, 2]];
    let mut solver = SatSolver::new(cnf, 2);
    assert!(solver.solve());
    let model = solver.get_model();
    assert_eq!(model.get(&1), Some(&true));
    assert_eq!(model.get(&2), Some(&true));
}

#[test]
fn test_larger_formula() {
    // More complex formula with 5 variables
    let cnf = vec![
        vec![1, 2, 3],
        vec![-1, 4],
        vec![-2, 4],
        vec![-3, 5],
        vec![-4, -5],
    ];
    assert!(is_sat(&cnf, 5));
}

#[test]
fn empty_clause_is_unsatisfiable() {
    let cnf: CNF = vec![vec![1], vec![]];
    assert!(!is_sat(&cnf, 1));
}

#[test]
fn model_satisfies_every_clause() {
    let cnf = vec![vec![1, 2, 3], vec![-1, 4], vec![-2, 4], vec![-3, 5], vec![-4, -5], vec![2, 3]];
    let mut solver = SatSolver::new(cnf.clone(), 5);
    assert!(solver.solve());
    let model = solver.get_model();
    for clause in &cnf {
        let mut holds = false;
        for lit in clause {
            let var = if *lit > 0 { *lit } else { -*lit };
            if model.get(&var) == Some(&(*lit > 0)) {
                holds = true;
            }
        }
        assert!(holds);
    }
}

#[test]
fn same_input_same_verdict_and_model() {
    let cnf = vec![vec![1, 2], vec![-1, 3], vec![-2, -3], vec![3, 4]];
    let mut first = SatSolver::new(cnf.clone(), 4);
    let mut second = SatSolver::new(cnf.clone(), 4);
    assert_eq!(first.solve(), second.solve());
    assert_eq!(first.get_model(), second.get_model());
    assert_eq!(is_sat(&cnf, 4), is_sat(&cnf, 4));
}

#[test]
fn pure_literal_is_not_taken_for_mixed_occurrences() {
    // x1 occurs as +, -, + and a as +, -, -: neither is pure. The formula
    // holds with x1 = false, a = false, q = true, s = true.
    let cnf = vec![vec![1, 3, 4], vec![-1, 2], vec![1, 5, 6], vec![-2, 3], vec![-2, -3]];
    assert!(is_sat(&cnf, 6));
}

#[test]
fn branching_tries_true_first() {
    // (x1 OR x2) AND (NOT x1 OR NOT x2): both variables occur in both
    // polarities, so the search branches on x1 with true.
    let cnf = vec![vec![1, 2], vec![-1, -2]];
    let mut solver = SatSolver::new(cnf, 2);
    assert!(solver.solve());
    let model = solver.get_model();
    assert_eq!(model.get(&1), Some(&true));
    assert_eq!(model.get(&2), Some(&false));
}

#[test]
fn unconstrained_variable_stays_free() {
    let cnf = vec![vec![1]];
    let mut solver = SatSolver::new(cnf, 2);
    assert!(solver.solve());
    let model = solver.get_model();
    assert_eq!(model.get(&1), Some(&true));
    assert_eq!(model.get(&2), None);
}

#[test]
fn range_check_of_literals() {
    assert!(literals_in_range(&vec![vec![1, -2], vec![2]], 2));
    assert!(!literals_in_range(&vec![vec![1, -3]], 2));
    assert!(!literals_in_range(&vec![vec![0]], 2));
    assert!(!literals_in_range(&vec![vec![i32::MIN]], 2));
    assert!(literals_in_range(&vec![], 0));
}

fn holds(cnf: &CNF, assignment: u32) -> bool {
    cnf.iter().all(|clause| {
        clause.iter().any(|lit| {
            let var = lit.unsigned_abs();
            let value = assignment & (1 << var) != 0;
            value == (*lit > 0)
        })
    })
}

fn brute_force(cnf: &CNF, num_vars: usize) -> bool {
    (0u32..(1 << num_vars)).any(|bits| holds(cnf, bits << 1))
}

fn clauses_up_to_two(num_vars: i32) -> Vec<Vec<i32>> {
    let mut lits = Vec::new();
    for v in 1..=num_vars {
        lits.push(v);
        lits.push(-v);
    }
    let mut out: Vec<Vec<i32>> = vec![vec![]];
    for a in &lits {
        out.push(vec![*a]);
        for b in &lits {
            out.push(vec![*a, *b]);
        }
    }
    out
}

#[test]
fn verdict_agrees_with_trying_every_assignment() {
    let clauses = clauses_up_to_two(3);
    let mut checked = 0;
    for a in &clauses {
        for b in &clauses {
            for c in &clauses {
                let cnf = vec![a.clone(), b.clone(), c.clone()];
                assert_eq!(is_sat(&cnf, 3), brute_force(&cnf, 3), "{:?}", cnf);
                checked += 1;
            }
        }
    }
    assert_eq!(checked, 43 * 43 * 43);
}

#[test]
fn models_satisfy_formulas_of_three_literal_clauses() {
    // a pseudo-random walk over formulas with five variables
    let mut state: u64 = 0x9E3779B97F4A7C15;
    let mut next = move || {
        state ^= state << 13;
        state ^= state >> 7;
        state ^= state << 17;
        state
    };
    let mut sat_count = 0;
    for _ in 0..2000 {
        let n_clauses = 1 + (next() % 12) as usize;
        let mut cnf: CNF = Vec::new();
        for _ in 0..n_clauses {
            let mut clause = Vec::new();
            for _ in 0..(1 + next() % 3) {
                let var = 1 + (next() % 5) as i32;
                clause.push(if next() % 2 == 0 { var } else { -var });
            }
            cnf.push(clause);
        }
        let mut solver = SatSolver::new(cnf.clone(), 5);
        let sat = solver.solve();
        assert_eq!(sat, brute_force(&cnf, 5), "{:?}", cnf);
        if sat {
            sat_count += 1;
            let model = solver.get_model();
            for clause in &cnf {
                assert!(clause.iter().any(|lit| model.get(&lit.abs()) == Some(&(*lit > 0))));
            }
            // solving again from the model changes nothing
            assert!(solver.solve());
            assert_eq!(solver.get_model(), model);
        }
    }
    assert!(sat_count > 0);
}
