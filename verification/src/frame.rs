//! Terminal rendering of number grids.
use crate::bits::{above, absolute, exceeds, not_below, reaches, without_sign};
use vstd::prelude::*;
use vstd::string::StringExecFns;

verus! {

/// The least magnitude that, times seven, rounds to one.
pub const STEP_1: u64 = 0x3FB2_4924_9249_2492;

/// The least magnitude that, times seven, rounds to two.
pub const STEP_2: u64 = 0x3FCB_6DB6_DB6D_B6DB;

/// The least magnitude that, times seven, rounds to three.
pub const STEP_3: u64 = 0x3FD6_DB6D_B6DB_6DB7;

/// The least magnitude that, times seven, rounds to four.
pub const STEP_4: u64 = 0x3FE0_0000_0000_0000;

/// The least magnitude that, times seven, rounds to five.
pub const STEP_5: u64 = 0x3FE4_9249_2492_4924;

/// The least magnitude that, times seven, rounds to six.
pub const STEP_6: u64 = 0x3FE9_2492_4924_9249;

/// The least magnitude that, times seven, rounds to seven.
pub const STEP_7: u64 = 0x3FED_B6DB_6DB6_DB6E;

/// The block character for the number `bits`: the wider, the further it is from zero,
/// in seven steps. What is no number gets the narrowest one.
pub open spec fn block_char(bits: u64) -> char {
    let distance = without_sign(bits);
    if not_below(distance, STEP_7) {
        '█'
    } else if not_below(distance, STEP_6) {
        '▉'
    } else if not_below(distance, STEP_5) {
        '▊'
    } else if not_below(distance, STEP_4) {
        '▋'
    } else if not_below(distance, STEP_3) {
        '▌'
    } else if not_below(distance, STEP_2) {
        '▍'
    } else if not_below(distance, STEP_1) {
        '▎'
    } else {
        '▏'
    }
}

/// Returns the block character for the number `bits`.
fn block(bits: u64) -> (c: char)
    ensures
        c == block_char(bits),
{
    let distance: u64 = absolute(bits);
    if reaches(distance, STEP_7) {
        '█'
    } else if reaches(distance, STEP_6) {
        '▉'
    } else if reaches(distance, STEP_5) {
        '▊'
    } else if reaches(distance, STEP_4) {
        '▋'
    } else if reaches(distance, STEP_3) {
        '▌'
    } else if reaches(distance, STEP_2) {
        '▍'
    } else if reaches(distance, STEP_1) {
        '▎'
    } else {
        '▏'
    }
}

/// What is printed for the `i`-th number of a grid that is `width` wide: a line
/// break where a row begins, a blank where columns are spaced, and a block on gray,
/// white for negative numbers and black for the others.
pub open spec fn cell_text(bits: u64, i: nat, width: nat, spacing: bool) -> Seq<char> {
    (if i > 0 && i % width == 0 {
        "\x1b[0m\n"@
    } else {
        ""@
    }) + (if spacing && i % width > 0 {
        "\x1b[0m "@
    } else {
        ""@
    }) + "\x1b[100m"@ + (if above(0, bits) {
        "\x1b[97m"@
    } else {
        "\x1b[30m"@
    }) + seq![block_char(bits)]
}

/// What is printed for the first `n` numbers of a grid.
pub open spec fn cells_text(values: Seq<u64>, n: nat, width: nat, spacing: bool) -> Seq<char>
    decreases n,
{
    if n == 0 {
        Seq::empty()
    } else {
        cells_text(values, (n - 1) as nat, width, spacing) + cell_text(
            values[n - 1],
            (n - 1) as nat,
            width,
            spacing,
        )
    }
}

/// The grid as text.
pub open spec fn frame_text(values: Seq<u64>, width: nat, spacing: bool) -> Seq<char> {
    cells_text(values, values.len(), width, spacing) + "\x1b[0m\n"@
}

/// Render a flat slice of values into a colored block-character grid, `width` wide.
/// Values in [-1, 0) get a white foreground, values in [0, 1] a black one; the
/// background is gray. When `spacing` is true a blank column is inserted between each cell.
pub fn render_frame(values: &[u64], width: usize, spacing: bool) -> (out: String)
    requires
        values@.len() > 0 ==> width > 0,
    ensures
        out@ == frame_text(values@, width as nat, spacing),
{
    let mut out = String::new();
    assert(""@ =~= Seq::<char>::empty()) by {
        reveal_strlit("");
    }
    for i in 0..values.len()
        invariant
            values@.len() > 0 ==> width > 0,
            ""@ == Seq::<char>::empty(),
            out@ == cells_text(values@, i as nat, width as nat, spacing),
    {
        let ghost before = out@;
        let col: usize = i % width;
        if i > 0 && col == 0 {
            out.append("\x1b[0m\n");
        }
        if spacing && col > 0 {
            out.append("\x1b[0m ");
        }
        out.append("\x1b[100m");
        if exceeds(0, values[i]) {
            out.append("\x1b[97m");
        } else {
            out.append("\x1b[30m");
        }
        out.push(block(values[i]));
        assert(out@ =~= before + cell_text(values@[i as int], i as nat, width as nat, spacing));
    }
    out.append("\x1b[0m\n");
    out
}

/// The labels with a blank between each two.
pub open spec fn label_row(labels: Seq<char>) -> Seq<char>
    decreases labels.len(),
{
    if labels.len() == 0 {
        Seq::empty()
    } else if labels.len() == 1 {
        seq![labels[0]]
    } else {
        label_row(labels.drop_last()).push(' ').push(labels.last())
    }
}

/// Render a row of output values with labeled columns below.
/// Spacing is always enabled so labels align 1:1 with blocks.
pub fn draw_output(outputs: &[u64], labels: &[char]) -> (out: String)
    ensures
        out@ == frame_text(outputs@, outputs@.len(), true) + label_row(labels@) + seq!['\n'],
{
    let mut out = render_frame(outputs, outputs.len(), true);
    let ghost top = out@;
    for i in 0..labels.len()
        invariant
            out@ == top + label_row(labels@.take(i as int)),
    {
        assert(labels@.take(i + 1).drop_last() =~= labels@.take(i as int));
        let ghost before = out@;
        if i > 0 {
            out.push(' ');
        }
        out.push(labels[i]);
        assert(out@ =~= top + label_row(labels@.take(i + 1)));
    }
    assert(labels@.take(labels@.len() as int) =~= labels@);
    out.push('\n');
    assert(out@ =~= top + label_row(labels@) + seq!['\n']);
    out
}

/// Whether `text` ends within an escape sequence, which goes from an escape character to
/// the next `m`.
pub open spec fn ends_escaped(text: Seq<char>) -> bool
    decreases text.len(),
{
    if text.len() == 0 {
        false
    } else if ends_escaped(text.drop_last()) {
        text.last() != 'm'
    } else {
        text.last() == '\x1b'
    }
}

/// What is left of `text` on a screen: everything but its escape sequences.
pub open spec fn visible(text: Seq<char>) -> Seq<char>
    decreases text.len(),
{
    if text.len() == 0 {
        Seq::empty()
    } else if ends_escaped(text.drop_last()) || text.last() == '\x1b' {
        visible(text.drop_last())
    } else {
        visible(text.drop_last()).push(text.last())
    }
}

/// Texts that end outside of escape sequences can be looked at one by one.
proof fn lemma_visible_joins(a: Seq<char>, b: Seq<char>)
    requires
        !ends_escaped(a),
    ensures
        visible(a + b) == visible(a) + visible(b),
        ends_escaped(a + b) == ends_escaped(b),
    decreases b.len(),
{
    if b.len() == 0 {
        assert(a + b =~= a);
        assert(visible(a) + visible(b) =~= visible(a));
    } else {
        lemma_visible_joins(a, b.drop_last());
        assert((a + b).drop_last() =~= a + b.drop_last());
        assert(visible(a + b) =~= visible(a) + visible(b));
    }
}

/// An escape sequence without its end shows nothing.
proof fn lemma_visible_open(text: Seq<char>)
    requires
        text.len() > 0,
        text[0] == '\x1b',
        forall|i: int| 0 <= i < text.len() ==> #[trigger] text[i] != 'm',
    ensures
        visible(text) == Seq::<char>::empty(),
        ends_escaped(text),
    decreases text.len(),
{
    let before = text.drop_last();
    if before.len() == 0 {
        assert(!ends_escaped(before));
        assert(visible(before) =~= Seq::<char>::empty());
    } else {
        lemma_visible_open(before);
    }
}

/// An escape sequence shows nothing.
proof fn lemma_visible_sequence(text: Seq<char>)
    requires
        text.len() > 1,
        text[0] == '\x1b',
        text.last() == 'm',
        forall|i: int| 0 <= i < text.len() - 1 ==> #[trigger] text[i] != 'm',
    ensures
        visible(text) == Seq::<char>::empty(),
        !ends_escaped(text),
{
    lemma_visible_open(text.drop_last());
}

/// What is visible of the pieces that a frame is made of.
proof fn lemma_visible_pieces()
    ensures
        visible("\x1b[0m\n"@) == seq!['\n'],
        !ends_escaped("\x1b[0m\n"@),
        visible("\x1b[0m "@) == seq![' '],
        !ends_escaped("\x1b[0m "@),
        visible("\x1b[100m"@) == Seq::<char>::empty(),
        !ends_escaped("\x1b[100m"@),
        visible("\x1b[97m"@) == Seq::<char>::empty(),
        !ends_escaped("\x1b[97m"@),
        visible("\x1b[30m"@) == Seq::<char>::empty(),
        !ends_escaped("\x1b[30m"@),
        ""@ == Seq::<char>::empty(),
{
    reveal_strlit("\x1b[0m\n");
    reveal_strlit("\x1b[0m ");
    reveal_strlit("\x1b[100m");
    reveal_strlit("\x1b[97m");
    reveal_strlit("\x1b[30m");
    reveal_strlit("");
    lemma_visible_sequence("\x1b[0m\n"@.drop_last());
    lemma_visible_sequence("\x1b[0m "@.drop_last());
    lemma_visible_sequence("\x1b[100m"@);
    lemma_visible_sequence("\x1b[97m"@);
    lemma_visible_sequence("\x1b[30m"@);
    assert(visible("\x1b[0m\n"@) =~= seq!['\n']);
    assert(visible("\x1b[0m "@) =~= seq![' ']);
    assert(""@ =~= Seq::<char>::empty());
}

/// A cell shows its line break or blank, where it has one, and its block.
proof fn lemma_visible_cell(bits: u64, i: nat, width: nat, spacing: bool)
    ensures
        visible(cell_text(bits, i, width, spacing)) == (if i > 0 && i % width == 0 {
            seq!['\n']
        } else {
            Seq::empty()
        }) + (if spacing && i % width > 0 {
            seq![' ']
        } else {
            Seq::empty()
        }) + seq![block_char(bits)],
        !ends_escaped(cell_text(bits, i, width, spacing)),
{
    lemma_visible_pieces();
    let feed = if i > 0 && i % width == 0 {
        "\x1b[0m\n"@
    } else {
        ""@
    };
    let blank = if spacing && i % width > 0 {
        "\x1b[0m "@
    } else {
        ""@
    };
    let ink = if above(0, bits) {
        "\x1b[97m"@
    } else {
        "\x1b[30m"@
    };
    let block = seq![block_char(bits)];
    assert(!ends_escaped(block.drop_last()) && visible(block.drop_last()) =~= Seq::empty());
    assert(visible(block) =~= block);
    assert(!ends_escaped(block));
    lemma_visible_joins(feed, blank);
    lemma_visible_joins(feed + blank, "\x1b[100m"@);
    lemma_visible_joins(feed + blank + "\x1b[100m"@, ink);
    lemma_visible_joins(feed + blank + "\x1b[100m"@ + ink, block);
    assert(visible(feed) + visible(blank) + visible("\x1b[100m"@) + visible(ink) + block
        =~= visible(feed) + visible(blank) + block);
}

/// A row of spaced cells shows its blocks with a blank between each two.
proof fn lemma_visible_row(values: Seq<u64>, n: nat)
    requires
        n <= values.len(),
    ensures
        visible(cells_text(values, n, values.len(), true)) == Seq::new(
            (if n == 0 {
                0
            } else {
                2 * n - 1
            }) as nat,
            |j: int|
                if j % 2 == 0 {
                    block_char(values[j / 2])
                } else {
                    ' '
                },
        ),
        !ends_escaped(cells_text(values, n, values.len(), true)),
    decreases n,
{
    let text = cells_text(values, n, values.len(), true);
    if n == 0 {
        assert(visible(text) =~= Seq::<char>::empty());
    } else {
        let i = (n - 1) as nat;
        let before = cells_text(values, i, values.len(), true);
        let cell = cell_text(values[n - 1], i, values.len(), true);
        lemma_visible_row(values, i);
        lemma_visible_cell(values[n - 1], i, values.len(), true);
        lemma_visible_joins(before, cell);
        assert(i % values.len() == i) by (nonlinear_arith)
            requires
                i < values.len(),
        ;
        assert(visible(text) =~= Seq::new(
            (2 * n - 1) as nat,
            |j: int|
                if j % 2 == 0 {
                    block_char(values[j / 2])
                } else {
                    ' '
                },
        ));
    }
}

/// A row of labels holds the labels with a blank between each two.
proof fn lemma_label_row(labels: Seq<char>)
    ensures
        label_row(labels) == Seq::new(
            (if labels.len() == 0 {
                0
            } else {
                2 * labels.len() - 1
            }) as nat,
            |j: int|
                if j % 2 == 0 {
                    labels[j / 2]
                } else {
                    ' '
                },
        ),
    decreases labels.len(),
{
    if labels.len() > 1 {
        lemma_label_row(labels.drop_last());
    }
    assert(label_row(labels) =~= Seq::new(
        (if labels.len() == 0 {
            0
        } else {
            2 * labels.len() - 1
        }) as nat,
        |j: int|
            if j % 2 == 0 {
                labels[j / 2]
            } else {
                ' '
            },
    ));
}

/// On a screen the label of each output stands below its block.
pub proof fn labels_line_up(outputs: Seq<u64>, labels: Seq<char>, i: int)
    requires
        0 <= i < outputs.len(),
        i < labels.len(),
    ensures
        visible(frame_text(outputs, outputs.len(), true))[2 * i] == block_char(outputs[i]),
        label_row(labels)[2 * i] == labels[i],
        forall|j: int|
            0 <= j <= 2 * i ==> #[trigger] visible(frame_text(outputs, outputs.len(), true))[j]
                != '\n',
{
    lemma_visible_pieces();
    lemma_visible_row(outputs, outputs.len());
    lemma_visible_joins(cells_text(outputs, outputs.len(), outputs.len(), true), "\x1b[0m\n"@);
    lemma_label_row(labels);
}

/// On a screen each cell adds its block to the cells before it: after a line break where it
/// begins a row, and otherwise, where cells are spaced, after a blank.
pub proof fn cells_show_blocks(values: Seq<u64>, n: nat, width: nat, spacing: bool)
    requires
        n < values.len(),
    ensures
        visible(cells_text(values, n + 1, width, spacing)) == visible(
            cells_text(values, n, width, spacing),
        ) + (if n > 0 && n % width == 0 {
            seq!['\n']
        } else {
            Seq::empty()
        }) + (if spacing && n % width > 0 {
            seq![' ']
        } else {
            Seq::empty()
        }) + seq![block_char(values[n as int])],
{
    lemma_cells_end(values, n, width, spacing);
    lemma_visible_cell(values[n as int], n, width, spacing);
    lemma_visible_joins(
        cells_text(values, n, width, spacing),
        cell_text(values[n as int], n, width, spacing),
    );
    assert(visible(cells_text(values, n + 1, width, spacing)) =~= visible(
        cells_text(values, n, width, spacing),
    ) + (if n > 0 && n % width == 0 {
        seq!['\n']
    } else {
        Seq::empty()
    }) + (if spacing && n % width > 0 {
        seq![' ']
    } else {
        Seq::empty()
    }) + seq![block_char(values[n as int])]);
}

/// Cells leave no escape sequence open.
proof fn lemma_cells_end(values: Seq<u64>, n: nat, width: nat, spacing: bool)
    ensures
        !ends_escaped(cells_text(values, n, width, spacing)),
    decreases n,
{
    if n > 0 {
        let i = (n - 1) as nat;
        lemma_cells_end(values, i, width, spacing);
        lemma_visible_cell(values[n - 1], i, width, spacing);
        lemma_visible_joins(
            cells_text(values, i, width, spacing),
            cell_text(values[n - 1], i, width, spacing),
        );
    }
}

/// The blocks are the eight characters from the full block on, and a number has one of the
/// first `8 - k` of them exactly where, times seven and without its sign, it rounds to `k` or
/// more.
pub proof fn blocks_mark_sevenths(magnitude: u64)
    requires
        magnitude <= 0x7FF0_0000_0000_0000,
    ensures
        0x2588 <= block_char(magnitude) as int <= 0x258F,
        block_char(magnitude) as int <= 0x258E <==> magnitude >= 0x3FB2_4924_9249_2492,
        block_char(magnitude) as int <= 0x258D <==> magnitude >= 0x3FCB_6DB6_DB6D_B6DB,
        block_char(magnitude) as int <= 0x258C <==> magnitude >= 0x3FD6_DB6D_B6DB_6DB7,
        block_char(magnitude) as int <= 0x258B <==> magnitude >= 0x3FE0_0000_0000_0000,
        block_char(magnitude) as int <= 0x258A <==> magnitude >= 0x3FE4_9249_2492_4924,
        block_char(magnitude) as int <= 0x2589 <==> magnitude >= 0x3FE9_2492_4924_9249,
        block_char(magnitude) as int <= 0x2588 <==> magnitude >= 0x3FED_B6DB_6DB6_DB6E,
{
}

/// A number and its negative have the same block, and what is no number has the narrowest.
pub proof fn blocks_ignore_signs(bits: u64)
    requires
        bits < 0x8000_0000_0000_0000,
    ensures
        block_char((bits + 0x8000_0000_0000_0000) as u64) == block_char(bits),
        bits > 0x7FF0_0000_0000_0000 ==> block_char(bits) as int == 0x258F,
{
}

/// Blocks widen, and never narrow, with the distance from zero.
pub proof fn blocks_widen(near: u64, far: u64)
    requires
        near <= far <= 0x7FF0_0000_0000_0000,
    ensures
        block_char(far) as int <= block_char(near) as int,
{
}

/// A cell ends with its block on gray: white where the number is negative, which neither
/// zero is, and black elsewhere. Before that stands nothing but what separates it from the
/// cell before: the end of the row, or a blank where cells are spaced.
pub proof fn cells_are_inked(bits: u64, i: nat, width: nat, spacing: bool)
    requires
        width > 0,
    ensures
        ({
            let negative = 0x8000_0000_0000_0000 < bits <= 0xFFF0_0000_0000_0000;
            let text = cell_text(bits, i, width, spacing);
            let start = text.len() - 12;
            &&& start >= 0
            &&& text.skip(start) == seq![
                '\x1b',
                '[',
                '1',
                '0',
                '0',
                'm',
                '\x1b',
                '[',
                if negative {
                    '9'
                } else {
                    '3'
                },
                if negative {
                    '7'
                } else {
                    '0'
                },
                'm',
                block_char(bits),
            ]
            &&& text.take(start) == (if i > 0 && i % width == 0 {
                seq!['\x1b', '[', '0', 'm', '\n']
            } else if spacing && i % width > 0 {
                seq!['\x1b', '[', '0', 'm', ' ']
            } else {
                Seq::empty()
            })
        }),
{
    reveal_strlit("\x1b[0m\n");
    reveal_strlit("\x1b[0m ");
    reveal_strlit("\x1b[100m");
    reveal_strlit("\x1b[97m");
    reveal_strlit("\x1b[30m");
    reveal_strlit("");
    let negative = 0x8000_0000_0000_0000 < bits <= 0xFFF0_0000_0000_0000;
    let text = cell_text(bits, i, width, spacing);
    let start = text.len() - 12;
    assert(above(0, bits) == negative);
    assert(text.skip(start) =~= seq![
        '\x1b',
        '[',
        '1',
        '0',
        '0',
        'm',
        '\x1b',
        '[',
        if negative {
            '9'
        } else {
            '3'
        },
        if negative {
            '7'
        } else {
            '0'
        },
        'm',
        block_char(bits),
    ]);
    if i > 0 && i % width == 0 {
        assert(text.take(start) =~= seq!['\x1b', '[', '0', 'm', '\n']);
    } else if spacing && i % width > 0 {
        assert(text.take(start) =~= seq!['\x1b', '[', '0', 'm', ' ']);
    } else {
        assert(text.take(start) =~= Seq::<char>::empty());
    }
}

/// Only the first `n` numbers have a say in the first `n` cells.
proof fn lemma_cells_prefix(values: Seq<u64>, more: Seq<u64>, n: nat, width: nat, spacing: bool)
    requires
        n <= values.len(),
        n <= more.len(),
        forall|i: int| 0 <= i < n ==> values[i] == #[trigger] more[i],
    ensures
        cells_text(values, n, width, spacing) == cells_text(more, n, width, spacing),
    decreases n,
{
    if n > 0 {
        lemma_cells_prefix(values, more, (n - 1) as nat, width, spacing);
        assert(values[n - 1] == more[n - 1]);
    }
}

/// A further number adds its cell to a frame, before the reset and the line break with which
/// every frame ends; a frame of no numbers is nothing else.
pub proof fn frames_grow_cell_by_cell(values: Seq<u64>, more: u64, width: nat, spacing: bool)
    ensures
        ({
            let end = seq!['\x1b', '[', '0', 'm', '\n'];
            let text = frame_text(values, width, spacing);
            &&& text.len() >= 5
            &&& text.skip(text.len() - 5) == end
            &&& values.len() == 0 ==> text == end
            &&& frame_text(values.push(more), width, spacing) == text.take(text.len() - 5)
                + cell_text(more, values.len(), width, spacing) + end
        }),
{
    reveal_strlit("\x1b[0m\n");
    let end = seq!['\x1b', '[', '0', 'm', '\n'];
    assert("\x1b[0m\n"@ =~= end);
    let text = frame_text(values, width, spacing);
    let cells = cells_text(values, values.len(), width, spacing);
    assert(text.skip(text.len() - 5) =~= end);
    assert(text.take(text.len() - 5) =~= cells);
    if values.len() == 0 {
        assert(text =~= end);
    }
    lemma_cells_prefix(values, values.push(more), values.len(), width, spacing);
    assert(values.push(more)[values.len() as int] == more);
    assert(cells_text(values.push(more), values.len() + 1, width, spacing) == cells + cell_text(
        more,
        values.len(),
        width,
        spacing,
    ));
}

/// A row of labels is as long as its labels with one blank between each two.
pub proof fn labels_are_spaced(labels: Seq<char>, i: int)
    requires
        0 <= i < labels.len(),
    ensures
        label_row(labels).len() == 2 * labels.len() - 1,
        label_row(labels)[2 * i] == labels[i],
        i + 1 < labels.len() ==> label_row(labels)[2 * i + 1] == ' ',
{
    lemma_label_row(labels);
}

} // verus!
