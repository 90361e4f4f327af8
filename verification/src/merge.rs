//! The multi-channel result merger.
//!
//! Each channel contributes one time-ordered sequence of formatted feature
//! results; every result carries one time cell and a fixed number of value
//! cells (the feature's arity). The merger aligns the sequences by
//! *position*: row `i` of the table holds the time cell of the first channel
//! that has an entry at position `i`, then every channel's value cells at
//! that position, with a fill cell wherever a channel's sequence is already
//! exhausted. Channels of differing length are expected — a silent channel
//! contributes no rows at all.
//!
//! Alignment is positional by design, not by time value: when channels skip
//! silence differently or carry different frame counts, entries at the same
//! position may belong to different instants, and the row keeps the first
//! available channel's time. An alignment by nearest time with an explicit
//! tolerance would behave differently; this table format deliberately does
//! not do that.

use vstd::prelude::*;
use vstd::arithmetic::div_mod::{
    lemma_fundamental_div_mod_converse_div, lemma_fundamental_div_mod_converse_mod,
};

verus! {

/// One formatted feature result: a time cell and the feature's value cells.
pub struct ResultRow {
    pub time_cell: String,
    pub value_cells: Vec<String>,
}

/// The number of rows of the merged table: the longest channel's length.
pub open spec fn table_height(chans: Seq<Seq<ResultRow>>) -> nat
    decreases chans.len(),
{
    if chans.len() == 0 {
        0
    } else {
        let rest = table_height(chans.drop_first());
        if chans[0].len() > rest {
            chans[0].len()
        } else {
            rest
        }
    }
}

/// The time cell of row `i`: that of the first channel, in channel order,
/// holding an entry at position `i`; empty when no channel does.
pub open spec fn row_time(chans: Seq<Seq<ResultRow>>, i: int) -> Seq<char>
    decreases chans.len(),
{
    if chans.len() == 0 {
        Seq::empty()
    } else if i < chans[0].len() {
        chans[0][i].time_cell@
    } else {
        row_time(chans.drop_first(), i)
    }
}

/// Cell `j` of row `i` of the merged table. Column 0 is the time column;
/// after it every channel owns `arity` columns in channel order.
pub open spec fn merged_cell(
    chans: Seq<Seq<ResultRow>>,
    arity: nat,
    fill: Seq<char>,
    i: int,
    j: int,
) -> Seq<char>
    recommends
        arity > 0,
        0 <= j < 1 + chans.len() * arity,
{
    if j == 0 {
        row_time(chans, i)
    } else {
        let c = (j - 1) / (arity as int);
        let t = (j - 1) % (arity as int);
        if i < chans[c].len() {
            chans[c][i].value_cells@[t]@
        } else {
            fill
        }
    }
}

/// The whole merged table: `table_height` rows of `1 + channels * arity`
/// cells each.
pub open spec fn merge_spec(chans: Seq<Seq<ResultRow>>, arity: nat, fill: Seq<char>) -> Seq<
    Seq<Seq<char>>,
>
    recommends
        arity > 0,
{
    Seq::new(
        table_height(chans),
        |i: int|
            Seq::new((1 + chans.len() * arity) as nat, |j: int| merged_cell(chans, arity, fill, i, j)),
    )
}

proof fn lemma_height_snoc(chans: Seq<Seq<ResultRow>>)
    requires
        chans.len() > 0,
    ensures
        table_height(chans) == if chans.last().len() > table_height(chans.drop_last()) {
            chans.last().len()
        } else {
            table_height(chans.drop_last())
        },
    decreases chans.len(),
{
    if chans.len() == 1 {
        assert(chans.drop_first() =~= Seq::<Seq<ResultRow>>::empty());
        assert(chans.drop_last() =~= Seq::<Seq<ResultRow>>::empty());
    } else {
        lemma_height_snoc(chans.drop_first());
        assert(chans.drop_last().drop_first() =~= chans.drop_first().drop_last());
        assert(chans.drop_last()[0] == chans[0]);
    }
}

/// The height of the merged table bounds every channel's length.
pub proof fn lemma_height_is_max(chans: Seq<Seq<ResultRow>>, c: int)
    requires
        0 <= c < chans.len(),
    ensures
        chans[c].len() <= table_height(chans),
    decreases chans.len(),
{
    if c > 0 {
        lemma_height_is_max(chans.drop_first(), c - 1);
    }
}

/// The height of the merged table is attained: when there is at least one
/// channel, some channel's sequence is exactly that long, so together with
/// the bound above the row count is the maximum channel length.
pub proof fn lemma_height_attained(chans: Seq<Seq<ResultRow>>)
    requires
        chans.len() > 0,
    ensures
        exists|c: int| 0 <= c < chans.len() && (#[trigger] chans[c]).len() == table_height(chans),
    decreases chans.len(),
{
    if chans.len() == 1 {
        assert(chans.drop_first() =~= Seq::<Seq<ResultRow>>::empty());
        assert(table_height(Seq::<Seq<ResultRow>>::empty()) == 0);
        assert(chans[0].len() == table_height(chans));
    } else {
        let rest = chans.drop_first();
        lemma_height_attained(rest);
        let cw = choose|c: int| 0 <= c < rest.len() && (#[trigger] rest[c]).len() == table_height(
            rest,
        );
        if chans[0].len() > table_height(rest) {
            assert(chans[0].len() == table_height(chans));
        } else {
            assert(chans[cw + 1].len() == table_height(chans));
        }
    }
}

/// The time cell of row `i` comes from the first channel with an entry at
/// `i`: any earlier channel is exhausted, and if channel `c` is the first
/// one holding an entry, its time cell is the row's.
pub proof fn lemma_row_time_first(chans: Seq<Seq<ResultRow>>, i: int, c: int)
    requires
        0 <= c < chans.len(),
        i < chans[c].len(),
        forall|cc: int| 0 <= cc < c ==> (#[trigger] chans[cc]).len() <= i,
    ensures
        row_time(chans, i) == chans[c][i].time_cell@,
    decreases c,
{
    if c > 0 {
        lemma_row_time_first(chans.drop_first(), i, c - 1);
    }
}

/// Builds the time cell of row `i`: a clone of the first channel's entry at
/// position `i`, or an empty cell when every channel is exhausted there.
fn row_time_cell(channels: &Vec<Vec<ResultRow>>, i: usize) -> (r: String)
    ensures
        r@ == row_time(channels@.map_values(|ch: Vec<ResultRow>| ch@), i as int),
{
    let ghost chans = channels@.map_values(|ch: Vec<ResultRow>| ch@);
    let mut c: usize = 0;
    proof {
        assert(chans.skip(0) =~= chans);
    }
    while c < channels.len()
        invariant
            c <= channels@.len(),
            chans == channels@.map_values(|ch: Vec<ResultRow>| ch@),
            row_time(chans, i as int) == row_time(chans.skip(c as int), i as int),
        decreases channels@.len() - c,
    {
        proof {
            assert(chans.skip(c as int).drop_first() =~= chans.skip(c + 1 as int));
        }
        if i < channels[c].len() {
            return channels[c][i].time_cell.clone();
        }
        c = c + 1;
    }
    proof {
        assert(chans.skip(chans.len() as int) =~= Seq::<Seq<ResultRow>>::empty());
    }
    String::new()
}

/// Merges the per-channel result sequences of one feature into the final
/// table. Row count is the longest channel's length; each channel fills its
/// `arity` columns where it has an entry at that row's position and `fill`
/// cells where it does not, so shorter channels end in fill cells rather
/// than cutting the table short.
pub fn merge_table(channels: &Vec<Vec<ResultRow>>, arity: usize, fill: &str) -> (r: Vec<
    Vec<String>,
>)
    requires
        arity > 0,
        forall|c: int, i: int|
            0 <= c < channels@.len() && 0 <= i < channels@[c]@.len() ==> (#[trigger] channels@[c]@[i]).value_cells@.len() == arity,
    ensures
        r.deep_view() == merge_spec(
            channels@.map_values(|ch: Vec<ResultRow>| ch@),
            arity as nat,
            fill@,
        ),
{
    let ghost chans = channels@.map_values(|ch: Vec<ResultRow>| ch@);
    let mut max_len: usize = 0;
    let mut c: usize = 0;
    proof {
        assert(chans.take(0) =~= Seq::<Seq<ResultRow>>::empty());
    }
    while c < channels.len()
        invariant
            c <= channels@.len(),
            chans == channels@.map_values(|ch: Vec<ResultRow>| ch@),
            max_len == table_height(chans.take(c as int)),
        decreases channels@.len() - c,
    {
        proof {
            lemma_height_snoc(chans.take(c + 1 as int));
            assert(chans.take(c + 1 as int).drop_last() =~= chans.take(c as int));
        }
        if channels[c].len() > max_len {
            max_len = channels[c].len();
        }
        c = c + 1;
    }
    proof {
        assert(chans.take(chans.len() as int) =~= chans);
    }
    let mut table: Vec<Vec<String>> = Vec::new();
    let mut i: usize = 0;
    while i < max_len
        invariant
            i <= max_len,
            arity > 0,
            max_len == table_height(chans),
            chans == channels@.map_values(|ch: Vec<ResultRow>| ch@),
            forall|cc: int, ii: int|
                0 <= cc < channels@.len() && 0 <= ii < channels@[cc]@.len() ==> (
                #[trigger] channels@[cc]@[ii]).value_cells@.len() == arity,
            table@.len() == i,
            forall|ii: int|
                0 <= ii < i ==> (#[trigger] table@[ii]).deep_view() == merge_spec(
                    chans,
                    arity as nat,
                    fill@,
                )[ii],
        decreases max_len - i,
    {
        let mut row: Vec<String> = Vec::new();
        row.push(row_time_cell(channels, i));
        let mut c: usize = 0;
        proof {
            assert(0 * arity == 0) by (nonlinear_arith);
        }
        while c < channels.len()
            invariant
                c <= channels@.len(),
                arity > 0,
                i < max_len,
                chans == channels@.map_values(|ch: Vec<ResultRow>| ch@),
                forall|cc: int, ii: int|
                    0 <= cc < channels@.len() && 0 <= ii < channels@[cc]@.len() ==> (
                    #[trigger] channels@[cc]@[ii]).value_cells@.len() == arity,
                row@.len() == 1 + c * arity,
                row@[0]@ == row_time(chans, i as int),
                forall|j: int|
                    1 <= j < row@.len() ==> (#[trigger] row@[j])@ == merged_cell(
                        chans,
                        arity as nat,
                        fill@,
                        i as int,
                        j,
                    ),
            decreases channels@.len() - c,
        {
            let ghost base = row@.len() as int;
            proof {
                assert((c + 1) * arity == c * arity + arity) by (nonlinear_arith);
            }
            let ch = &channels[c];
            if i < ch.len() {
                let cells = &ch[i].value_cells;
                let mut t: usize = 0;
                while t < cells.len()
                    invariant
                        t <= cells@.len(),
                        cells@.len() == arity,
                        arity > 0,
                        c < channels@.len(),
                        chans == channels@.map_values(|ch: Vec<ResultRow>| ch@),
                        cells@ == chans[c as int][i as int].value_cells@,
                        i < chans[c as int].len(),
                        base == 1 + c * arity,
                        row@.len() == base + t,
                        row@[0]@ == row_time(chans, i as int),
                        forall|j: int|
                            1 <= j < row@.len() ==> (#[trigger] row@[j])@ == merged_cell(
                                chans,
                                arity as nat,
                                fill@,
                                i as int,
                                j,
                            ),
                    decreases cells@.len() - t,
                {
                    proof {
                        lemma_fundamental_div_mod_converse_div(
                            c as int * arity + t as int,
                            arity as int,
                            c as int,
                            t as int,
                        );
                        lemma_fundamental_div_mod_converse_mod(
                            c as int * arity + t as int,
                            arity as int,
                            c as int,
                            t as int,
                        );
                    }
                    row.push(cells[t].clone());
                    t = t + 1;
                }
            } else {
                let mut t: usize = 0;
                while t < arity
                    invariant
                        t <= arity,
                        arity > 0,
                        c < channels@.len(),
                        chans == channels@.map_values(|ch: Vec<ResultRow>| ch@),
                        i >= chans[c as int].len(),
                        base == 1 + c * arity,
                        row@.len() == base + t,
                        row@[0]@ == row_time(chans, i as int),
                        forall|j: int|
                            1 <= j < row@.len() ==> (#[trigger] row@[j])@ == merged_cell(
                                chans,
                                arity as nat,
                                fill@,
                                i as int,
                                j,
                            ),
                    decreases arity - t,
                {
                    proof {
                        lemma_fundamental_div_mod_converse_div(
                            c as int * arity + t as int,
                            arity as int,
                            c as int,
                            t as int,
                        );
                        lemma_fundamental_div_mod_converse_mod(
                            c as int * arity + t as int,
                            arity as int,
                            c as int,
                            t as int,
                        );
                    }
                    row.push(fill.to_owned());
                    t = t + 1;
                }
            }
            c = c + 1;
        }
        proof {
            let spec_row = merge_spec(chans, arity as nat, fill@)[i as int];
            assert(row.deep_view().len() == spec_row.len());
            assert forall|j: int| 0 <= j < spec_row.len() implies row.deep_view()[j] == spec_row[j]
            by {
                if j == 0 {
                    assert(row.deep_view()[0] == row@[0]@);
                } else {
                    assert(row.deep_view()[j] == row@[j]@);
                }
            }
            assert(row.deep_view() =~= spec_row);
        }
        table.push(row);
        i = i + 1;
    }
    proof {
        assert forall|ii: int| 0 <= ii < table@.len() implies table.deep_view()[ii] == merge_spec(
            chans,
            arity as nat,
            fill@,
        )[ii] by {
            assert(table.deep_view()[ii] == table@[ii].deep_view());
        }
        assert(table.deep_view() =~= merge_spec(chans, arity as nat, fill@));
    }
    table
}

/// Determinism law of the merger: the merged table is a function of the
/// per-channel cell sequences, the arity and the fill cell alone, so two
/// runs of the pipeline over identical input and configuration produce
/// identical tables.
pub proof fn lemma_merge_deterministic(
    a: Seq<Seq<ResultRow>>,
    b: Seq<Seq<ResultRow>>,
    arity: nat,
    fill: Seq<char>,
)
    requires
        a == b,
    ensures
        merge_spec(a, arity, fill) == merge_spec(b, arity, fill),
{
}

} // verus!
