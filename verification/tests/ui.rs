use toku::ui::{border_cells, result_rows, Cell};

#[test]
fn the_frame_of_the_picker() {
    let cells = border_cells(2, 1, 4, 4);
    assert_eq!(cells.len(), 2 * 4 + 3 * 4);
    assert_eq!(&cells[..4], &[(2, 1, '│'), (5, 1, '│'), (2, 2, '│'), (5, 2, '│')]);
    assert_eq!(&cells[8..11], &[(2, 1, '┌'), (2, 3, '├'), (2, 4, '└')]);
    assert_eq!(&cells[11..14], &[(3, 1, '─'), (3, 3, '─'), (3, 4, '─')]);
    assert_eq!(&cells[17..], &[(5, 1, '┐'), (5, 3, '┤'), (5, 4, '┘')]);
}

fn symbols(row: &[Cell]) -> String {
    row.iter().map(|c| c.symbol.as_str()).collect()
}

#[test]
fn no_matches() {
    let rows = result_rows(&vec![], 14, 3);
    assert_eq!(rows.len(), 1);
    assert_eq!(symbols(&rows[0]), " No matches   ");
    assert!(rows[0].iter().all(|c| c.italic && !c.highlight && !c.selected));
}

#[test]
fn rows_of_results() {
    let rows = vec![
        ("quit".to_string(), vec![0], false),
        ("cursor.up".to_string(), vec![0, 7], true),
        ("other".to_string(), vec![], false),
    ];
    let cells = result_rows(&rows, 10, 2);
    assert_eq!(cells.len(), 2);
    assert_eq!(symbols(&cells[0]), " quit     ");
    assert_eq!(symbols(&cells[1]), "cursor.up ");
    let lit: Vec<usize> = (0..10).filter(|i| cells[0][*i].highlight).collect();
    assert_eq!(lit, vec![0, 1]);
    let lit: Vec<usize> = (0..10).filter(|i| cells[1][*i].highlight).collect();
    assert_eq!(lit, vec![0, 1, 8]);
    assert!(cells[1].iter().all(|c| c.selected && !c.italic));
    assert!(cells[0].iter().all(|c| !c.selected));
}
