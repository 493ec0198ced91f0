use quadratic_core::cell_value::CellValue;
use quadratic_core::cell_values::{CellValues, CellValuesError};
use quadratic_core::pos::Rect;

#[test]
fn new() {
    let cell_values = CellValues::new(2, 3);
    assert_eq!(cell_values.w, 2);
    assert_eq!(cell_values.h, 3);
    assert_eq!(cell_values.columns.len(), 2);
    assert_eq!(cell_values.columns[0].len(), 0);
    assert_eq!(cell_values.columns[1].len(), 0);
}

#[test]
fn new_blank() {
    let cell_values = CellValues::new_blank(2, 3);
    assert_eq!(cell_values.w, 2);
    assert_eq!(cell_values.h, 3);
    assert_eq!(cell_values.columns.len(), 2);
    assert_eq!(cell_values.columns[0].len(), 3);
    assert_eq!(cell_values.columns[1].len(), 3);
    assert_eq!(cell_values.columns[0].get(&0), Some(&CellValue::Blank));
    assert_eq!(cell_values.columns[1].get(&0), Some(&CellValue::Blank));
    assert_eq!(cell_values.columns[0].get(&1), Some(&CellValue::Blank));
    assert_eq!(cell_values.columns[1].get(&1), Some(&CellValue::Blank));
    assert_eq!(cell_values.columns[0].get(&2), Some(&CellValue::Blank));
    assert_eq!(cell_values.columns[1].get(&2), Some(&CellValue::Blank));
}

#[test]
fn get_set_remove() {
    let mut cell_values = CellValues::new(2, 3);
    cell_values.set(0, 0, CellValue::from("a"));
    cell_values.set(1, 2, CellValue::from("b"));
    assert_eq!(cell_values.get(0, 0), Some(&CellValue::from("a")));
    assert_eq!(cell_values.get(1, 2), Some(&CellValue::from("b")));
    assert_eq!(cell_values.get(1, 0), None);
    cell_values.remove(0, 0);
    assert_eq!(cell_values.get(0, 0), None);
}

#[test]
fn get_except_blank() {
    let mut cell_values = CellValues::new(2, 3);
    cell_values.set(0, 0, CellValue::from("a"));
    cell_values.set(1, 2, CellValue::Blank);
    assert_eq!(
        cell_values.get_except_blank(0, 0),
        Some(&CellValue::from("a"))
    );
    assert_eq!(cell_values.get_except_blank(1, 2), None);
}

#[test]
fn from_str() {
    let cell_values = CellValues::from(vec![vec!["a", "b"], vec!["c", "d"]]);
    assert_eq!(cell_values.w, 2);
    assert_eq!(cell_values.h, 2);
    assert_eq!(cell_values.get(0, 0), Some(&CellValue::from("a")));
    assert_eq!(cell_values.get(1, 1), Some(&CellValue::from("d")));
}

#[test]
fn size() {
    let cell_values = CellValues::new(2, 3);
    assert_eq!(cell_values.size(), 6);
}

#[test]
fn from_cell_value() {
    let cell_values =
        CellValues::from(vec![vec![CellValue::from("a")], vec![CellValue::from("b")]]);
    assert_eq!(cell_values.w, 1);
    assert_eq!(cell_values.h, 2);
    assert_eq!(cell_values.get(0, 0), Some(&CellValue::from("a")));
    assert_eq!(cell_values.get(0, 1), Some(&CellValue::from("b")));
}

#[test]
fn from_cell_value_single() {
    let cell_values = CellValues::from(CellValue::from("a"));
    assert_eq!(cell_values.w, 1);
    assert_eq!(cell_values.h, 1);
    assert_eq!(cell_values.get(0, 0), Some(&CellValue::from("a")));
}

#[test]
fn from_flat_array() {
    let cell_values = CellValues::from_flat_array(2, 3, vec![CellValue::from("a"); 6]);
    assert_eq!(cell_values.w, 2);
    assert_eq!(cell_values.h, 3);
    assert_eq!(cell_values.get(0, 0), Some(&CellValue::from("a")));
    assert_eq!(cell_values.get(1, 2), Some(&CellValue::from("a")));
}

#[test]
fn into_iter() {
    let cell_values = CellValues::from(vec![vec!["a", "b"], vec!["c", "d"]]);
    let items = cell_values.into_iter();
    let mut iter = items.into_iter();
    assert_eq!(iter.next(), Some((0, 0, &CellValue::from("a"))));
    assert_eq!(iter.next(), Some((0, 1, &CellValue::from("b"))));
    assert_eq!(iter.next(), Some((1, 0, &CellValue::from("c"))));
    assert_eq!(iter.next(), Some((1, 1, &CellValue::from("d"))));
    assert_eq!(iter.next(), None);
}

#[test]
fn cell_values_w_grows() {
    let mut cell_values = CellValues::new(1, 1);
    cell_values.set(1, 0, CellValue::from("a"));
    assert_eq!(cell_values.w, 2);
    assert_eq!(cell_values.columns.len(), 2);
    assert_eq!(cell_values.h, 1);
    assert_eq!(cell_values.get(1, 0), Some(&CellValue::from("a")));
}

#[test]
fn cell_values_from_vec_of_vec_of_option() {
    let mut cell_values = vec![vec![None; 1]; 4];
    cell_values[0][0] = Some(CellValue::from("a"));
    cell_values[1][0] = Some(CellValue::from("b"));
    cell_values[3][0] = Some(CellValue::from("c"));
    let cell_values = CellValues::from(cell_values);

    assert_eq!(cell_values.w, 4);
    assert_eq!(cell_values.h, 1);
    assert_eq!(cell_values.get(0, 0), Some(&CellValue::from("a")));
    assert_eq!(cell_values.get(1, 0), Some(&CellValue::from("b")));
    assert_eq!(cell_values.get(3, 0), Some(&CellValue::from("c")));
}

#[test]
fn set_beyond_bounds_grows_to_fit() {
    let mut cell_values = CellValues::new(2, 2);
    cell_values.set(4, 6, CellValue::Logical(true));
    assert_eq!(cell_values.w, 5);
    assert_eq!(cell_values.h, 7);
    assert_eq!(cell_values.columns.len(), 5);
    assert_eq!(cell_values.get(4, 6), Some(&CellValue::Logical(true)));
    assert_eq!(cell_values.get(3, 6), None);
    assert_eq!(
        cell_values.safe_get(5, 0),
        Err(CellValuesError::OutOfBounds { w: 5, h: 7, x: 5, y: 0 })
    );
    assert_eq!(
        cell_values.safe_get(0, 7),
        Err(CellValuesError::OutOfBounds { w: 5, h: 7, x: 0, y: 7 })
    );
}

#[test]
fn set_inside_bounds_keeps_them() {
    let mut cell_values = CellValues::new(3, 3);
    cell_values.set(1, 1, CellValue::from("x"));
    assert_eq!(cell_values.w, 3);
    assert_eq!(cell_values.h, 3);
}

#[test]
fn remove_never_shrinks() {
    let mut cell_values = CellValues::new(1, 1);
    cell_values.set(2, 3, CellValue::from("x"));
    assert_eq!(cell_values.remove(2, 3), Some(CellValue::from("x")));
    assert_eq!(cell_values.remove(2, 3), None);
    assert_eq!(cell_values.w, 3);
    assert_eq!(cell_values.h, 4);
}

#[test]
fn safe_get_reports_each_error() {
    let mut cell_values = CellValues::new(2, 2);
    cell_values.set(0, 1, CellValue::from("v"));
    assert_eq!(cell_values.safe_get(0, 1), Ok(&CellValue::from("v")));
    assert_eq!(
        cell_values.safe_get(1, 1),
        Err(CellValuesError::NoValue { x: 1, y: 1 })
    );
    assert_eq!(
        cell_values.safe_get(2, 0),
        Err(CellValuesError::OutOfBounds { w: 2, h: 2, x: 2, y: 0 })
    );
}

#[test]
fn get_owned_writes_through() {
    let mut cell_values = CellValues::new(2, 2);
    cell_values.set(1, 0, CellValue::from("old"));
    match cell_values.get_owned(1, 0) {
        Ok(value) => *value = CellValue::from("new"),
        Err(_) => panic!("a value was set at (1, 0)"),
    }
    assert_eq!(cell_values.get(1, 0), Some(&CellValue::from("new")));
    assert_eq!(
        cell_values.get_owned(0, 0).err(),
        Some(CellValuesError::NoValue { x: 0, y: 0 })
    );
    assert_eq!(
        cell_values.get_owned(0, 2).err(),
        Some(CellValuesError::OutOfBounds { w: 2, h: 2, x: 0, y: 2 })
    );
}

#[test]
fn get_rect_moves_cells_out() {
    let mut cell_values = CellValues::new(3, 3);
    cell_values.set(0, 0, CellValue::from("a"));
    cell_values.set(1, 1, CellValue::from("b"));
    cell_values.set(2, 2, CellValue::from("c"));
    let values = cell_values.get_rect(Rect::new(0, 0, 1, 1));
    assert_eq!(
        values,
        vec![
            vec![CellValue::from("a"), CellValue::Blank],
            vec![CellValue::Blank, CellValue::from("b")],
        ]
    );
    assert_eq!(cell_values.get(0, 0), None);
    assert_eq!(cell_values.get(1, 1), None);
    assert_eq!(cell_values.get(2, 2), Some(&CellValue::from("c")));
    assert_eq!(cell_values.w, 3);
    assert_eq!(cell_values.h, 3);
}

#[test]
fn into_vec_empties_the_store() {
    let mut cell_values = CellValues::from(vec![vec!["a", ""], vec!["c", "d"]]);
    let values = cell_values.into_vec();
    assert_eq!(
        values,
        vec![
            vec![CellValue::from("a"), CellValue::from("c")],
            vec![CellValue::Blank, CellValue::from("d")],
        ]
    );
    assert_eq!(cell_values.into_iter().len(), 0);
    assert_eq!(cell_values.w, 2);
    assert_eq!(cell_values.h, 2);
}

#[test]
fn into_owned_vec_fills_gaps_with_blank() {
    let mut cell_values = CellValues::new(2, 2);
    cell_values.set(1, 0, CellValue::Logical(false));
    assert_eq!(
        cell_values.into_owned_vec(),
        vec![
            vec![CellValue::Blank, CellValue::Logical(false)],
            vec![CellValue::Blank, CellValue::Blank],
        ]
    );
    assert_eq!(CellValues::new(0, 2).into_owned_vec(), vec![vec![], vec![]] as Vec<Vec<CellValue>>);
}

#[test]
fn into_owned_iter_lists_column_by_column() {
    let mut cell_values = CellValues::new(2, 3);
    cell_values.set(1, 0, CellValue::from("c"));
    cell_values.set(0, 2, CellValue::from("b"));
    cell_values.set(0, 1, CellValue::from("a"));
    assert_eq!(
        cell_values.into_owned_iter(),
        vec![
            (0, 1, CellValue::from("a")),
            (0, 2, CellValue::from("b")),
            (1, 0, CellValue::from("c")),
        ]
    );
}

#[test]
fn from_flat_array_is_row_major() {
    let values = vec![
        CellValue::from("a"),
        CellValue::from("b"),
        CellValue::from("c"),
        CellValue::from("d"),
        CellValue::from("e"),
        CellValue::from("f"),
    ];
    let cell_values = CellValues::from_flat_array(3, 2, values);
    assert_eq!(cell_values.get(0, 0), Some(&CellValue::from("a")));
    assert_eq!(cell_values.get(2, 0), Some(&CellValue::from("c")));
    assert_eq!(cell_values.get(0, 1), Some(&CellValue::from("d")));
    assert_eq!(cell_values.get(2, 1), Some(&CellValue::from("f")));
}

#[test]
fn from_cell_value_vec_takes_the_longest_row() {
    let cell_values = CellValues::from_cell_value_vec(vec![
        vec![CellValue::from("a")],
        vec![CellValue::from("b"), CellValue::from("c"), CellValue::from("d")],
    ]);
    assert_eq!(cell_values.w, 3);
    assert_eq!(cell_values.h, 2);
    assert_eq!(cell_values.get(0, 0), Some(&CellValue::from("a")));
    assert_eq!(cell_values.get(1, 0), None);
    assert_eq!(cell_values.get(2, 1), Some(&CellValue::from("d")));
    let single = CellValues::from_cell_value(CellValue::Blank);
    assert_eq!(single.get(0, 0), Some(&CellValue::Blank));
}

#[test]
fn from_options_grows_past_the_first_column() {
    let cell_values = CellValues::from(vec![
        vec![None],
        vec![None, None, Some(CellValue::from("deep"))],
    ]);
    assert_eq!(cell_values.w, 2);
    assert_eq!(cell_values.h, 3);
    assert_eq!(cell_values.get(1, 2), Some(&CellValue::from("deep")));
    let empty = CellValues::from(Vec::<Vec<Option<CellValue>>>::new());
    assert_eq!(empty.w, 0);
    assert_eq!(empty.h, 0);
}

#[test]
fn is_empty_follows_the_bounds() {
    assert!(CellValues::new(0, 3).is_empty());
    assert!(CellValues::new(3, 0).is_empty());
    assert!(!CellValues::new(1, 1).is_empty());
    assert!(CellValues::default().is_empty());
    assert_eq!(CellValues::new_blank(2, 2).clone().get(1, 1), Some(&CellValue::Blank));
}

#[test]
fn errors_have_messages() {
    assert_eq!(
        CellValuesError::OutOfBounds { w: 2, h: 30, x: 405, y: 0 }.message(),
        "CellValues::safe_get out of bounds: w=2, h=30, x=405, y=0"
    );
    assert_eq!(
        CellValuesError::NoValue { x: 4294967295, y: 10 }.message(),
        "No value found at (4294967295, 10)"
    );
}

#[test]
fn cell_values_hold_a_large_store() {
    let w = 100;
    let h = 10000;
    let mut cell_values = CellValues::new(w, h);
    for x in 0..w {
        for y in 0..h {
            cell_values.set(x, y, CellValue::from("a"));
        }
    }
    let items = cell_values.into_iter();
    assert_eq!(items.len(), (w * h) as usize);
    assert_eq!(items[0], (0, 0, &CellValue::from("a")));
    assert_eq!(items[10000], (1, 0, &CellValue::from("a")));
    assert_eq!(items[(w * h - 1) as usize], (w - 1, h - 1, &CellValue::from("a")));
}

#[test]
fn listing_a_sparse_store_skips_what_is_absent() {
    let mut cell_values = CellValues::new(1, 1);
    cell_values.set(70_000, 3_000_000, CellValue::from("far"));
    cell_values.set(70_000, 5, CellValue::from("near"));
    cell_values.set(2, 4_000_000, CellValue::from("deep"));
    assert_eq!(
        cell_values.into_iter(),
        vec![
            (2, 4_000_000, &CellValue::from("deep")),
            (70_000, 5, &CellValue::from("near")),
            (70_000, 3_000_000, &CellValue::from("far")),
        ]
    );
    assert_eq!(cell_values.w, 70_001);
    assert_eq!(cell_values.h, 4_000_001);
}
