//! Grid assembly of thumbnails into one contact sheet.
//!
//! The stacking itself is done by the external filter service; this module
//! computes everything the invocation needs: the deterministic row-major
//! position layout, the final sheet size, and the full argument vector.
//! An input with fewer thumbnails than grid cells is rejected here, before
//! any external tool would run.

use vstd::prelude::*;

use crate::strfmt::{fmt_u64, spec_dec};
use crate::{THUMBNAIL_HEIGHT, THUMBNAIL_WIDTH};

verus! {

/// Default grid: 9 columns by 6 rows.
pub const DEFAULT_GRID_COLS: usize = 9;

/// Default grid: 9 columns by 6 rows.
pub const DEFAULT_GRID_ROWS: usize = 6;

/// Thumbnails on the default contact sheet.
pub const DEFAULT_THUMBNAIL_COUNT: usize = DEFAULT_GRID_COLS * DEFAULT_GRID_ROWS;

/// The position text of one cell: `x_y` in pixels.
pub open spec fn spec_cell_text(col: int, row: int) -> Seq<char> {
    spec_dec((col * THUMBNAIL_WIDTH) as nat) + seq!['_'] + spec_dec(
        (row * THUMBNAIL_HEIGHT) as nat,
    )
}

/// The `|`-separated cell positions of the first `k` cells of a row-major
/// grid with `cols` columns.
pub open spec fn spec_layout_upto(cols: int, k: int) -> Seq<char>
    decreases k,
{
    if k <= 0 {
        Seq::empty()
    } else if k == 1 {
        spec_cell_text(0, 0)
    } else {
        spec_layout_upto(cols, k - 1) + seq!['|'] + spec_cell_text((k - 1) % cols, (k - 1) / cols)
    }
}

/// The whole layout of a `cols` by `rows` grid.
pub open spec fn spec_xstack_layout(cols: int, rows: int) -> Seq<char> {
    spec_layout_upto(cols, cols * rows)
}

/// Builds the pipe-delimited position layout of a row-major grid, cell
/// `(row, col)` standing at `(col * tile_width, row * tile_height)`.
pub fn build_xstack_layout(cols: usize, rows: usize) -> (r: String)
    requires
        cols * THUMBNAIL_WIDTH as usize <= u32::MAX as usize,
        rows * THUMBNAIL_HEIGHT as usize <= u32::MAX as usize,
        cols * rows <= usize::MAX,
    ensures
        r@ == spec_xstack_layout(cols as int, rows as int),
{
    proof {
        reveal_strlit("|");
        reveal_strlit("_");
    }
    let mut s = String::new();
    let mut row: usize = 0;
    assert(s@ =~= spec_layout_upto(cols as int, 0));
    while row < rows
        invariant
            row <= rows,
            cols * THUMBNAIL_WIDTH as usize <= u32::MAX as usize,
            rows * THUMBNAIL_HEIGHT as usize <= u32::MAX as usize,
            cols * rows <= usize::MAX,
            s@ == spec_layout_upto(cols as int, row as int * cols as int),
        decreases rows - row,
    {
        let mut col: usize = 0;
        proof {
            assert((row as int + 1) * cols as int <= rows as int * cols as int && (row as int + 1)
                * cols as int == row as int * cols as int + cols as int) by (nonlinear_arith)
                requires
                    0 <= cols as int,
                    row as int + 1 <= rows as int,
            ;
            assert(rows as int * cols as int == cols as int * rows as int) by (nonlinear_arith);
        }
        while col < cols
            invariant
                col <= cols,
                row < rows,
                cols * THUMBNAIL_WIDTH as usize <= u32::MAX as usize,
                rows * THUMBNAIL_HEIGHT as usize <= u32::MAX as usize,
                cols * rows <= usize::MAX,
                row as int * cols as int + cols as int <= cols as int * rows as int,
                s@ == spec_layout_upto(cols as int, row as int * cols as int + col as int),
            decreases cols - col,
        {
            let ghost k = row as int * cols as int + col as int;
            proof {
                reveal_strlit("|");
                reveal_strlit("_");
            }
            if row > 0 || col > 0 {
                s.append("|");
            }
            let x: u64 = (col as u64) * (THUMBNAIL_WIDTH as u64);
            let y: u64 = (row as u64) * (THUMBNAIL_HEIGHT as u64);
            proof {
                assert(col as int * THUMBNAIL_WIDTH as int <= cols as int * THUMBNAIL_WIDTH as int
                    && row as int * THUMBNAIL_HEIGHT as int <= rows as int * THUMBNAIL_HEIGHT
                    as int) by (nonlinear_arith)
                    requires
                        0 <= col as int <= cols as int,
                        0 <= row as int <= rows as int,
                        0 < THUMBNAIL_WIDTH as int,
                        0 < THUMBNAIL_HEIGHT as int,
                ;
            }
            let xs = fmt_u64(x);
            s.append(xs.as_str());
            s.append("_");
            let ys = fmt_u64(y);
            s.append(ys.as_str());
            proof {
                vstd::arithmetic::div_mod::lemma_fundamental_div_mod_converse(
                    k,
                    cols as int,
                    row as int,
                    col as int,
                );
                assert(k % cols as int == col as int && k / cols as int == row as int);
                if k == 0 {
                    assert(s@ =~= spec_layout_upto(cols as int, 1));
                } else {
                    assert(s@ =~= spec_layout_upto(cols as int, k) + seq!['|'] + spec_cell_text(
                        k % cols as int,
                        k / cols as int,
                    ));
                    assert(s@ =~= spec_layout_upto(cols as int, k + 1));
                }
            }
            col += 1;
        }
        row += 1;
    }
    proof {
        assert(rows as int * cols as int == cols as int * rows as int) by (nonlinear_arith);
    }
    s
}

/// The views of a vector of strings.
pub open spec fn spec_views(ss: Seq<String>) -> Seq<Seq<char>> {
    ss.map_values(|s: String| s@)
}

/// Why a contact sheet could not be planned.
#[derive(Debug, Clone, Copy, PartialEq, Eq, Structural)]
pub enum ContactSheetError {
    /// Fewer thumbnails were supplied than the grid has cells.
    NotEnoughThumbnails { needed: usize, got: usize },
}

/// The alternating `-i <path>` arguments for the first `n` thumbnails.
pub open spec fn spec_input_args(thumbs: Seq<Seq<char>>, n: int) -> Seq<Seq<char>>
    decreases n,
{
    if n <= 0 {
        Seq::empty()
    } else {
        spec_input_args(thumbs, n - 1) + seq!["-i"@, thumbs[n - 1]]
    }
}

/// The stacking filter expression for `count` inputs and a layout.
pub open spec fn spec_filter_text(count: nat, layout: Seq<char>) -> Seq<char> {
    "xstack=inputs="@ + spec_dec(count) + ":layout="@ + layout
}

/// The full argument vector of one stacking invocation.
pub open spec fn spec_contact_sheet_args(
    thumbs: Seq<Seq<char>>,
    out: Seq<char>,
    cols: int,
    rows: int,
) -> Seq<Seq<char>> {
    seq!["-hide_banner"@, "-loglevel"@, "error"@] + spec_input_args(thumbs, cols * rows) + seq![
        "-filter_complex"@,
        spec_filter_text((cols * rows) as nat, spec_xstack_layout(cols, rows)),
        "-frames:v"@,
        "1"@,
        "-y"@,
        out,
    ]
}

/// Plans one contact-sheet invocation: the full argument vector for the
/// external stacking filter, with all `grid_cols * grid_rows` inputs and
/// the computed layout.  Fails, producing no arguments at all, exactly
/// when fewer thumbnails than grid cells were supplied.
pub fn create_contact_sheet_args(
    thumbnails: &Vec<String>,
    output_path: &str,
    grid_cols: usize,
    grid_rows: usize,
) -> (r: Result<Vec<String>, ContactSheetError>)
    requires
        grid_cols * THUMBNAIL_WIDTH as usize <= u32::MAX as usize,
        grid_rows * THUMBNAIL_HEIGHT as usize <= u32::MAX as usize,
        grid_cols * grid_rows <= usize::MAX,
    ensures
        match r {
            Ok(args) => {
                &&& thumbnails@.len() >= grid_cols * grid_rows
                &&& spec_views(args@) == spec_contact_sheet_args(
                    spec_views(thumbnails@),
                    output_path@,
                    grid_cols as int,
                    grid_rows as int,
                )
            },
            Err(e) => {
                &&& thumbnails@.len() < grid_cols * grid_rows
                &&& e == (ContactSheetError::NotEnoughThumbnails {
                    needed: (grid_cols * grid_rows) as usize,
                    got: thumbnails@.len() as usize,
                })
            },
        },
{
    let expected: usize = grid_cols * grid_rows;
    if thumbnails.len() < expected {
        return Err(ContactSheetError::NotEnoughThumbnails { needed: expected, got: thumbnails.len() });
    }
    let ghost thumb_views = spec_views(thumbnails@);
    let mut args: Vec<String> = Vec::new();
    args.push("-hide_banner".to_owned());
    args.push("-loglevel".to_owned());
    args.push("error".to_owned());
    let ghost head = seq!["-hide_banner"@, "-loglevel"@, "error"@];
    proof {
        assert(spec_views(args@) =~~= head + spec_input_args(thumb_views, 0));
    }
    let mut i: usize = 0;
    while i < expected
        invariant
            i <= expected,
            expected <= thumbnails@.len(),
            thumb_views == spec_views(thumbnails@),
            head == seq!["-hide_banner"@, "-loglevel"@, "error"@],
            spec_views(args@) == head + spec_input_args(thumb_views, i as int),
        decreases expected - i,
    {
        let ghost pre = args@;
        args.push("-i".to_owned());
        args.push(thumbnails[i].clone());
        proof {
            let rhs = head + spec_input_args(thumb_views, i as int + 1);
            assert(spec_input_args(thumb_views, i as int + 1) == spec_input_args(
                thumb_views,
                i as int,
            ) + seq!["-i"@, thumb_views[i as int]]);
            assert(args@.len() == pre.len() + 2);
            assert(spec_views(pre).len() == pre.len());
            assert(spec_views(args@).len() == args@.len());
            assert(spec_input_args(thumb_views, i as int).len() == pre.len() - 3);
            assert(spec_views(args@).len() == rhs.len());
            assert forall|j: int| 0 <= j < args@.len() implies spec_views(args@)[j] == rhs[j] by {
                if j < pre.len() {
                    assert(args@[j] == pre[j]);
                    assert(spec_views(pre)[j] == pre[j]@);
                    assert(spec_views(pre)[j] == (head + spec_input_args(
                        thumb_views,
                        i as int,
                    ))[j]);
                } else if j == pre.len() {
                    assert(args@[j]@ == "-i"@);
                } else {
                    assert(args@[j]@ == thumb_views[i as int]);
                }
            }
            assert(spec_views(args@) =~= rhs);
        }
        i += 1;
    }
    let mut filter = "xstack=inputs=".to_owned();
    let count_text = fmt_u64(expected as u64);
    filter.append(count_text.as_str());
    filter.append(":layout=");
    let layout = build_xstack_layout(grid_cols, grid_rows);
    filter.append(layout.as_str());
    proof {
        assert(filter@ =~= spec_filter_text(
            (grid_cols * grid_rows) as nat,
            spec_xstack_layout(grid_cols as int, grid_rows as int),
        ));
    }
    args.push("-filter_complex".to_owned());
    args.push(filter);
    args.push("-frames:v".to_owned());
    args.push("1".to_owned());
    args.push("-y".to_owned());
    args.push(output_path.to_owned());
    proof {
        assert(spec_views(args@) =~~= spec_contact_sheet_args(
            thumb_views,
            output_path@,
            grid_cols as int,
            grid_rows as int,
        ));
    }
    Ok(args)
}

/// The pixel size of the finished sheet.
pub fn calculate_contact_sheet_size(grid_cols: usize, grid_rows: usize) -> (r: (u32, u32))
    requires
        grid_cols * THUMBNAIL_WIDTH as usize <= u32::MAX as usize,
        grid_rows * THUMBNAIL_HEIGHT as usize <= u32::MAX as usize,
    ensures
        r.0 == grid_cols * THUMBNAIL_WIDTH as usize,
        r.1 == grid_rows * THUMBNAIL_HEIGHT as usize,
{
    proof {
        assert(grid_cols as int <= grid_cols as int * THUMBNAIL_WIDTH as int && grid_rows as int
            <= grid_rows as int * THUMBNAIL_HEIGHT as int) by (nonlinear_arith)
            requires
                0 <= grid_cols as int,
                0 <= grid_rows as int,
                1 <= THUMBNAIL_WIDTH as int,
                1 <= THUMBNAIL_HEIGHT as int,
        ;
    }
    let width: u32 = (grid_cols as u32) * THUMBNAIL_WIDTH;
    let height: u32 = (grid_rows as u32) * THUMBNAIL_HEIGHT;
    (width, height)
}

} // verus!
