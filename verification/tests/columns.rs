use tree_list_view::{distribute_widths, ColumnWidth};

#[test]
fn distribute_widths_respects_min_ideal_max() {
    let columns = [
        ColumnWidth {
            min: 4,
            ideal: 6,
            max: 8,
        },
        ColumnWidth {
            min: 4,
            ideal: 4,
            max: 6,
        },
    ];
    let widths = distribute_widths(12, &columns);
    assert_eq!(widths.as_slice(), &[8, 4]);
}

#[test]
fn distribute_widths_keeps_minimums_when_short() {
    let columns = [
        ColumnWidth {
            min: 5,
            ideal: 7,
            max: 9,
        },
        ColumnWidth {
            min: 5,
            ideal: 6,
            max: 7,
        },
    ];
    // Total below the sum of minimums: minimums are returned as-is.
    let widths = distribute_widths(6, &columns);
    assert_eq!(widths.as_slice(), &[5, 5]);
}

#[test]
fn distribute_widths_caps_at_maximums() {
    let columns = [
        ColumnWidth {
            min: 2,
            ideal: 3,
            max: 4,
        },
        ColumnWidth {
            min: 2,
            ideal: 3,
            max: 4,
        },
    ];
    // Total above the sum of maximums: the excess is not distributed.
    let widths = distribute_widths(100, &columns);
    assert_eq!(widths.as_slice(), &[4, 4]);
}

#[test]
fn distribute_widths_grows_ideals_in_order() {
    let columns = [
        ColumnWidth {
            min: 2,
            ideal: 6,
            max: 8,
        },
        ColumnWidth {
            min: 2,
            ideal: 6,
            max: 8,
        },
    ];
    // Only two spare cells: the first column grows toward its ideal first.
    let widths = distribute_widths(6, &columns);
    assert_eq!(widths.as_slice(), &[4, 2]);
}

#[test]
fn fixed_width_pins_all_three_bounds() {
    let w = ColumnWidth::fixed(7);
    assert_eq!(w.min, 7);
    assert_eq!(w.ideal, 7);
    assert_eq!(w.max, 7);
    let widths = distribute_widths(20, &[w]);
    assert_eq!(widths.as_slice(), &[7]);
}
