use vstd::prelude::*;
use crate::format::{
    decimal, format_count, format_millis, format_size, millis_text, size_text, EXACT_MILLIS_LIMIT,
};

verus! {

/// std's monotonic clock reading, carried as an opaque value.
#[verifier::external_type_specification]
#[verifier::external_body]
pub struct ExInstant(std::time::Instant);

/// Relies on std::time::Instant::now for the moment a timed row starts;
/// nothing is assumed of the value.
pub assume_specification[ std::time::Instant::now ]() -> std::time::Instant;

/// Times one row of the conversion report.
pub struct Logging {
    pub now: std::time::Instant,
}

/// `s` padded with spaces on the right to `width` characters.
pub open spec fn padded(s: Seq<char>, width: nat) -> Seq<char> {
    if s.len() >= width {
        s
    } else {
        s + Seq::new((width - s.len()) as nat, |_i: int| ' ')
    }
}

/// The cells, each padded to its width, joined by " | ".
pub open spec fn row_text(cells: Seq<Seq<char>>, widths: Seq<nat>) -> Seq<char>
    decreases cells.len(),
{
    if cells.len() == 0 {
        Seq::empty()
    } else if cells.len() == 1 {
        padded(cells[0], widths[0])
    } else {
        row_text(cells.drop_last(), widths.drop_last()) + seq![' ', '|', ' '] + padded(
            cells.last(),
            widths.last(),
        )
    }
}

/// Width of the name column of a file row.
pub const NAME_WIDTH: usize = 30;

/// Width of the other columns of a file row.
pub const CELL_WIDTH: usize = 10;

/// Width of every column of the totals rows.
pub const TOTAL_WIDTH: usize = 12;

fn append_padded(s: &mut String, cell: &String, width: usize)
    ensures
        final(s)@ == old(s)@ + padded(cell@, width as nat),
{
    s.append(cell.as_str());
    let n = cell.as_str().unicode_len();
    let mut k: usize = n;
    proof {
        reveal_strlit(" ");
        assert(" "@ =~= seq![' ']);
        assert(s@ =~= old(s)@ + cell@ + Seq::new((k - n) as nat, |_i: int| ' '));
    }
    while k < width
        invariant
            n == cell@.len(),
            n <= k <= width || (n > width && k == n),
            s@ == old(s)@ + cell@ + Seq::new((k - n) as nat, |_i: int| ' '),
        decreases width - k,
    {
        proof {
            reveal_strlit(" ");
            assert(" "@ =~= seq![' ']);
        }
        s.append(" ");
        assert(s@ =~= old(s)@ + cell@ + Seq::new((k + 1 - n) as nat, |_i: int| ' '));
        k = k + 1;
    }
    assert(final(s)@ =~= old(s)@ + padded(cell@, width as nat));
}

/// Lays out a table row: each cell padded to its width, joined by " | ".
pub fn table_row(cells: &Vec<String>, widths: &Vec<usize>) -> (r: String)
    requires
        cells.len() == widths.len(),
    ensures
        r@ == row_text(cells.deep_view(), widths@.map_values(|w: usize| w as nat)),
{
    let ghost ws = widths@.map_values(|w: usize| w as nat);
    let mut s = String::new();
    let mut i: usize = 0;
    while i < cells.len()
        invariant
            cells.len() == widths.len(),
            i <= cells.len(),
            ws == widths@.map_values(|w: usize| w as nat),
            s@ == row_text(cells.deep_view().subrange(0, i as int), ws.subrange(0, i as int)),
        decreases cells.len() - i,
    {
        let ghost before = s@;
        let ghost next_cells = cells.deep_view().subrange(0, i + 1);
        let ghost next_widths = ws.subrange(0, i + 1);
        assert(next_cells.drop_last() =~= cells.deep_view().subrange(0, i as int));
        assert(next_widths.drop_last() =~= ws.subrange(0, i as int));
        if i > 0 {
            proof {
                reveal_strlit(" | ");
            }
            s.append(" | ");
        }
        append_padded(&mut s, &cells[i], widths[i]);
        proof {
            assert(next_cells.last() == cells[i as int]@);
            assert(next_widths.last() == widths[i as int] as nat);
            if i == 0 {
                assert(before =~= Seq::<char>::empty());
                assert(s@ =~= row_text(next_cells, next_widths));
            } else {
                assert(s@ =~= row_text(next_cells, next_widths));
            }
        }
        i = i + 1;
    }
    assert(cells.deep_view().subrange(0, i as int) =~= cells.deep_view());
    assert(ws.subrange(0, i as int) =~= ws);
    s
}

impl Logging {
    /// Starts timing a row.
    pub fn start_row() -> (r: Self) {
        Logging { now: std::time::Instant::now() }
    }

    /// The heading of the per-file rows.
    pub fn header() -> (r: String)
        ensures
            r@ == row_text(
                seq![
                    seq!['N', 'a', 'm', 'e'],
                    seq!['I', 'n', 'p', 'u', 't'],
                    seq!['O', 'u', 't', 'p', 'u', 't'],
                    seq!['D', 'u', 'r', 'a', 't', 'i', 'o', 'n'],
                ],
                seq![30nat, 10, 10, 10],
            ),
    {
        proof {
            reveal_strlit("Name");
            reveal_strlit("Input");
            reveal_strlit("Output");
            reveal_strlit("Duration");
            assert("Name"@ =~= seq!['N', 'a', 'm', 'e']);
            assert("Input"@ =~= seq!['I', 'n', 'p', 'u', 't']);
            assert("Output"@ =~= seq!['O', 'u', 't', 'p', 'u', 't']);
            assert("Duration"@ =~= seq!['D', 'u', 'r', 'a', 't', 'i', 'o', 'n']);
        }
        let cells = vec![
            String::from_str("Name"),
            String::from_str("Input"),
            String::from_str("Output"),
            String::from_str("Duration"),
        ];
        let widths = vec![NAME_WIDTH, CELL_WIDTH, CELL_WIDTH, CELL_WIDTH];
        let r = table_row(&cells, &widths);
        assert(cells.deep_view() =~= seq![
            seq!['N', 'a', 'm', 'e'],
            seq!['I', 'n', 'p', 'u', 't'],
            seq!['O', 'u', 't', 'p', 'u', 't'],
            seq!['D', 'u', 'r', 'a', 't', 'i', 'o', 'n'],
        ]);
        assert(widths@.map_values(|w: usize| w as nat) =~= seq![30nat, 10, 10, 10]);
        r
    }

    /// The row of one converted file: its name, input size, output size and
    /// the time it took.
    pub fn file_row(name: &String, input_size: u64, output_size: u64, elapsed_ms: u128) -> (r: String)
        requires
            elapsed_ms < EXACT_MILLIS_LIMIT,
        ensures
            r@ == row_text(
                seq![
                    name@,
                    size_text(input_size as nat),
                    size_text(output_size as nat),
                    millis_text(elapsed_ms as nat),
                ],
                seq![30nat, 10, 10, 10],
            ),
    {
        let cells = vec![
            name.clone(),
            format_size(input_size),
            format_size(output_size),
            format_millis(elapsed_ms),
        ];
        let widths = vec![NAME_WIDTH, CELL_WIDTH, CELL_WIDTH, CELL_WIDTH];
        let r = table_row(&cells, &widths);
        assert(cells.deep_view() =~= seq![
            name@,
            size_text(input_size as nat),
            size_text(output_size as nat),
            millis_text(elapsed_ms as nat),
        ]);
        assert(widths@.map_values(|w: usize| w as nat) =~= seq![30nat, 10, 10, 10]);
        r
    }

    /// The heading of the totals row.
    pub fn total_header() -> (r: String)
        ensures
            r@ == row_text(
                seq![
                    seq!['I', 'n', 'p', 'u', 't', ' ', 'S', 'i', 'z', 'e'],
                    seq!['O', 'u', 't', 'p', 'u', 't', ' ', 'S', 'i', 'z', 'e'],
                    seq!['R', 'e', 'd', 'u', 'c', 't', 'i', 'o', 'n'],
                    seq!['D', 'u', 'r', 'a', 't', 'i', 'o', 'n'],
                    seq!['I', 'm', 'a', 'g', 'e', 's', ' ', 'C', 'o', 'u', 'n', 't'],
                ],
                seq![12nat, 12, 12, 12, 12],
            ),
    {
        proof {
            reveal_strlit("Input Size");
            reveal_strlit("Output Size");
            reveal_strlit("Reduction");
            reveal_strlit("Duration");
            reveal_strlit("Images Count");
            assert("Input Size"@ =~= seq!['I', 'n', 'p', 'u', 't', ' ', 'S', 'i', 'z', 'e']);
            assert("Output Size"@ =~= seq!['O', 'u', 't', 'p', 'u', 't', ' ', 'S', 'i', 'z', 'e']);
            assert("Reduction"@ =~= seq!['R', 'e', 'd', 'u', 'c', 't', 'i', 'o', 'n']);
            assert("Duration"@ =~= seq!['D', 'u', 'r', 'a', 't', 'i', 'o', 'n']);
            assert("Images Count"@ =~= seq![
                'I', 'm', 'a', 'g', 'e', 's', ' ', 'C', 'o', 'u', 'n', 't'
            ]);
        }
        let cells = vec![
            String::from_str("Input Size"),
            String::from_str("Output Size"),
            String::from_str("Reduction"),
            String::from_str("Duration"),
            String::from_str("Images Count"),
        ];
        let widths = vec![TOTAL_WIDTH, TOTAL_WIDTH, TOTAL_WIDTH, TOTAL_WIDTH, TOTAL_WIDTH];
        let r = table_row(&cells, &widths);
        assert(cells.deep_view() =~= seq![
            seq!['I', 'n', 'p', 'u', 't', ' ', 'S', 'i', 'z', 'e'],
            seq!['O', 'u', 't', 'p', 'u', 't', ' ', 'S', 'i', 'z', 'e'],
            seq!['R', 'e', 'd', 'u', 'c', 't', 'i', 'o', 'n'],
            seq!['D', 'u', 'r', 'a', 't', 'i', 'o', 'n'],
            seq!['I', 'm', 'a', 'g', 'e', 's', ' ', 'C', 'o', 'u', 'n', 't'],
        ]);
        assert(widths@.map_values(|w: usize| w as nat) =~= seq![12nat, 12, 12, 12, 12]);
        r
    }

    /// The totals row of a run: input and output sizes, the reduction as
    /// already written out, the time taken and the number of files.
    pub fn total_row(
        input_size: u64,
        output_size: u64,
        reduction: &String,
        elapsed_ms: u128,
        count: u64,
    ) -> (r: String)
        requires
            elapsed_ms < EXACT_MILLIS_LIMIT,
        ensures
            r@ == row_text(
                seq![
                    size_text(input_size as nat),
                    size_text(output_size as nat),
                    reduction@,
                    millis_text(elapsed_ms as nat),
                    decimal(count as nat),
                ],
                seq![12nat, 12, 12, 12, 12],
            ),
    {
        let cells = vec![
            format_size(input_size),
            format_size(output_size),
            reduction.clone(),
            format_millis(elapsed_ms),
            format_count(count),
        ];
        let widths = vec![TOTAL_WIDTH, TOTAL_WIDTH, TOTAL_WIDTH, TOTAL_WIDTH, TOTAL_WIDTH];
        let r = table_row(&cells, &widths);
        assert(cells.deep_view() =~= seq![
            size_text(input_size as nat),
            size_text(output_size as nat),
            reduction@,
            millis_text(elapsed_ms as nat),
            decimal(count as nat),
        ]);
        assert(widths@.map_values(|w: usize| w as nat) =~= seq![12nat, 12, 12, 12, 12]);
        r
    }
}

} // verus!
