use hill_climbing::{hill_climbing_search, LocalOptimizationProblem};

#[derive(Debug, PartialEq, Eq)]
struct Quadratic(i32);

impl LocalOptimizationProblem for Quadratic {
    type Score = i32;
    fn successors(&self) -> Vec<Self> {
        vec![Quadratic(self.0 - 1), Quadratic(self.0 + 1)]
    }
    fn evaluate(&self) -> Self::Score {
        -(self.0) * (self.0 - 2) + 1
    }
}

#[test]
fn test_quadratic() {
    let initial = Quadratic(-8);
    let expected = Quadratic(1);
    let actual = hill_climbing_search(30, initial);
    assert_eq!(expected, actual);
}

#[test]
fn quadratic_scores() {
    assert_eq!(Quadratic(1).evaluate(), 2);
    assert_eq!(Quadratic(0).evaluate(), 1);
    assert_eq!(Quadratic(2).evaluate(), 1);
    assert_eq!(Quadratic(-8).evaluate(), -79);
}

#[test]
fn quadratic_from_the_right() {
    assert_eq!(hill_climbing_search(30, Quadratic(12)), Quadratic(1));
}

#[test]
fn quadratic_with_exactly_enough_budget() {
    assert_eq!(hill_climbing_search(9, Quadratic(-8)), Quadratic(1));
    assert_eq!(hill_climbing_search(10, Quadratic(-8)), Quadratic(1));
}

#[test]
fn quadratic_stops_when_the_budget_is_spent() {
    assert_eq!(hill_climbing_search(3, Quadratic(-8)), Quadratic(-5));
    assert_eq!(hill_climbing_search(1, Quadratic(-8)), Quadratic(-7));
    assert_eq!(hill_climbing_search(8, Quadratic(-8)), Quadratic(0));
}

#[test]
fn quadratic_without_budget_stays() {
    assert_eq!(hill_climbing_search(0, Quadratic(-8)), Quadratic(-8));
    assert_eq!(hill_climbing_search(0, Quadratic(1)), Quadratic(1));
}

#[test]
fn quadratic_peak_is_a_fixed_point() {
    assert_eq!(hill_climbing_search(1, Quadratic(1)), Quadratic(1));
    assert_eq!(hill_climbing_search(30, Quadratic(1)), Quadratic(1));
    assert_eq!(hill_climbing_search(usize::MAX, Quadratic(1)), Quadratic(1));
}

#[test]
fn quadratic_never_descends() {
    for start in -20..=20 {
        for budget in 0..=25usize {
            let before = Quadratic(start).evaluate();
            let after = hill_climbing_search(budget, Quadratic(start)).evaluate();
            assert!(after >= before);
        }
    }
}

#[test]
fn quadratic_never_moves_further_than_the_budget() {
    for start in -20..=20i32 {
        for budget in 0..=25usize {
            let end = hill_climbing_search(budget, Quadratic(start)).0;
            let moved = (end - start).unsigned_abs() as usize;
            assert!(moved <= budget);
            assert!(moved == budget || end == 1);
        }
    }
}
