use inverse_conway::{Conway, Outcome, SolverInconclusive, Verdict};

fn parse(s: &str) -> Option<Conway> {
    let lines = s.lines().map(|x| x.trim()).filter(|x| !x.is_empty()).collect::<Vec<_>>();
    let (rows, cols) = (lines.len(), lines[0].chars().count());
    if lines.iter().any(|x| x.chars().count() != cols) {
        return None;
    }

    let mut res = Conway::new(rows, cols);
    for (row, line) in lines.iter().enumerate() {
        for (col, ch) in line.chars().enumerate() {
            res.set(row, col, match ch {
                '■' => true,
                '□' => false,
                _ => return None,
            }).unwrap();
        }
    }
    Some(res)
}

fn grid(text: &str) -> Conway {
    parse(text).unwrap()
}

#[test]
fn big_pattern_forward_and_one_step_back() {
    let start = parse(r#"
□□□■■□□■■□□■■□□□
□□■□■□□■■□□■□■□□
□■□□□□□□□□□□□□■□
■□□□□□□□□□□□□□□■
■■□□■■■□□□□□□□■■
□□□□□□□□□■□□□□□□
□□□□□□□□□■□□□□□□
□□□□□□□□□■□□□□□□
■■□□■■■□□□□□□□■■
■□□□□□□□□□□□□□□■
□■□□□□□□□□□□□□■□
□□■□■□□■■□□■□■□□
□□□■■□□■■□□■■□□□
"#).unwrap();
    let next_1 = parse(r#"
□□□■■□□■■□□■■□□□
□□■□■□□■■□□■□■□□
□■□□□□□□□□□□□□■□
■□□□□■□□□□□□□□□■
■■□□□■□□□□□□□□■■
□□□□□■□□□□□□□□□□
□□□□□□□□■■■□□□□□
□□□□□■□□□□□□□□□□
■■□□□■□□□□□□□□■■
■□□□□■□□□□□□□□□■
□■□□□□□□□□□□□□■□
□□■□■□□■■□□■□■□□
□□□■■□□■■□□■■□□□
"#).unwrap();
    assert_eq!(start.forward(1), next_1);
    assert_eq!(next_1.forward(1), start);

    assert_eq!(start.backward(0).unwrap().unwrap(), start);
    let prev_1 = start.backward(1).unwrap().unwrap();
    assert_eq!(prev_1.forward(1), start);
}

#[test]
fn zero_steps_back_is_the_target_itself() {
    let target = grid("□■□\n■□□\n□□■");
    assert_eq!(target.backward(0), Ok(Some(target.clone())));
    let empty = Conway::new(0, 0);
    assert_eq!(empty.backward(0), Ok(Some(Conway::new(0, 0))));
    assert_eq!(empty.backward(3), Ok(Some(Conway::new(0, 0))));
}

#[test]
fn lone_cell_has_no_predecessor() {
    let mut one = Conway::new(1, 1);
    one.set(0, 0, true).unwrap();
    assert_eq!(one.backward(1), Ok(None));
    assert_eq!(one.backward(2), Ok(None));
    let corner = grid("■□\n□□");
    assert_eq!(corner.backward(1), Ok(None));
}

#[test]
fn all_dead_target_has_a_predecessor() {
    let dead = Conway::new(3, 3);
    let found = dead.backward(1).unwrap().unwrap();
    assert_eq!(found.forward(1), dead);
    let found = dead.backward(3).unwrap().unwrap();
    assert_eq!(found.forward(3), dead);
}

#[test]
fn one_step_back_where_a_full_row_thins_out() {
    let target = grid("□■□");
    let found = target.backward(1).unwrap().unwrap();
    assert_eq!(found, grid("■■■"));
    assert_eq!(found.forward(1), target);
}

#[test]
fn one_step_back_where_three_cells_fill_a_square() {
    let target = grid("■■\n■■");
    let found = target.backward(1).unwrap().unwrap();
    assert_eq!(found.forward(1), target);
    let mut alive = 0;
    for row in 0..2 {
        for col in 0..2 {
            if found.get(row, col).unwrap() {
                alive += 1;
            }
        }
    }
    assert!(alive == 3 || alive == 4);
}

#[test]
fn witness_keeps_the_size_of_the_target() {
    let target = grid("□□□□\n□■■□\n□■■□");
    let found = target.backward(2).unwrap().unwrap();
    assert_eq!((found.rows(), found.cols()), (3, 4));
    assert_eq!(found.forward(2), target);
}

#[test]
fn solve_reports_each_kind_of_answer() {
    let answer = inverse_conway::reconstruct::solve(1, 3, &vec![false, true, false], 1);
    assert!(matches!(answer, Outcome::Witness(ref cells) if cells == &vec![true, true, true]));
    let answer = inverse_conway::reconstruct::solve(1, 1, &vec![true], 1);
    assert!(matches!(answer, Outcome::NoPredecessor));
    let answer = inverse_conway::reconstruct::solve(2, 2, &vec![true, false, false, true], 0);
    assert!(matches!(answer, Outcome::Witness(ref cells) if cells == &vec![true, false, false, true]));
}

#[test]
fn conclude_reads_each_outcome() {
    let target = grid("□■\n■□");
    let witness = Outcome::Witness(vec![true, true, false, true]);
    assert_eq!(target.conclude(witness), Ok(Some(grid("■■\n□■"))));
    assert_eq!(target.conclude(Outcome::NoPredecessor), Ok(None));
    assert_eq!(target.conclude(Outcome::Inconclusive), Err(SolverInconclusive));
    let short = Outcome::Witness(vec![true, true, false]);
    assert_eq!(target.conclude(short), Err(SolverInconclusive));
}

#[test]
fn settle_reads_each_answer() {
    let cells = vec![true, false, true];
    assert_eq!(Outcome::settle(Verdict::Sat, Some(cells.clone())), Outcome::Witness(cells.clone()));
    assert_eq!(Outcome::settle(Verdict::Sat, None), Outcome::Inconclusive);
    assert_eq!(Outcome::settle(Verdict::Unsat, None), Outcome::NoPredecessor);
    assert_eq!(Outcome::settle(Verdict::Unsat, Some(cells.clone())), Outcome::NoPredecessor);
    assert_eq!(Outcome::settle(Verdict::Unknown, None), Outcome::Inconclusive);
    assert_eq!(Outcome::settle(Verdict::Unknown, Some(cells)), Outcome::Inconclusive);
}

#[test]
fn empty_target_is_read_as_the_empty_row() {
    let answer = inverse_conway::reconstruct::solve(0, 0, &vec![], 0);
    assert_eq!(answer, Outcome::Witness(vec![]));
    let answer = inverse_conway::reconstruct::solve(0, 0, &vec![], 2);
    assert_eq!(answer, Outcome::Witness(vec![]));
}
