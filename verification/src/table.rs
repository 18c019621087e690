use vstd::prelude::*;
use crate::dom::{
    doc_subtrees, nested_texts, nested_texts_in_fragment, select_in_document, selector_is_valid,
    selector_ok,
};
use crate::error::ExtractError;
use crate::text::{join_spec, join_strings, trim_spec, trim_str};

verus! {

/// The rows of a table.
pub open spec fn table_row_selector() -> Seq<char> {
    "tr"@
}

/// The cells of a row, data and header cells alike.
pub open spec fn table_cell_selector() -> Seq<char> {
    "td, th"@
}

/// The text of one cell: its text nodes joined with single spaces, trimmed.
pub open spec fn cell_text_spec(parts: Seq<Seq<char>>) -> Seq<char> {
    trim_spec(join_spec(parts, seq![' ']))
}

/// The cell texts of one row, in document order.
pub open spec fn row_cells_spec(row: Seq<Seq<Seq<char>>>) -> Seq<Seq<char>> {
    row.map_values(|cell: Seq<Seq<char>>| cell_text_spec(cell))
}

/// `rows` with the rows that yielded no cells dropped; order kept.
pub open spec fn keep_nonempty(rows: Seq<Seq<Seq<char>>>) -> Seq<Seq<Seq<char>>>
    decreases rows.len(),
{
    if rows.len() == 0 {
        Seq::empty()
    } else {
        keep_nonempty(rows.drop_last()) + if rows.last().len() > 0 {
            seq![rows.last()]
        } else {
            Seq::empty()
        }
    }
}

/// The rows of one re-rooted table: per row the cell texts, rows without
/// cells dropped.
pub open spec fn table_rows_spec(table: Seq<char>) -> Seq<Seq<Seq<char>>> {
    keep_nonempty(
        nested_texts(table, table_row_selector(), table_cell_selector()).map_values(
            |row: Seq<Seq<Seq<char>>>| row_cells_spec(row),
        ),
    )
}

/// The rows of a sequence of tables, table by table, in order.
pub open spec fn tables_rows_spec(tables: Seq<Seq<char>>) -> Seq<Seq<Seq<char>>>
    decreases tables.len(),
{
    if tables.len() == 0 {
        Seq::empty()
    } else {
        tables_rows_spec(tables.drop_last()) + table_rows_spec(tables.last())
    }
}

/// All rows of all tables matching the table selector in a document: tables
/// in document order, rows in document order within each table, cells in
/// document order within each row.
pub open spec fn table_spec(html: Seq<char>, table_sel: Seq<char>) -> Seq<Seq<Seq<char>>> {
    if !selector_ok(table_row_selector()) || !selector_ok(table_cell_selector()) {
        Seq::empty()
    } else {
        tables_rows_spec(doc_subtrees(html, table_sel))
    }
}

/// Extracts the rows of every table matching `table_selector`: per row the
/// trimmed, space-joined text of each cell; rows yielding zero cells are
/// dropped. Fails with a `Selector` error exactly when the table selector does
/// not compile.
pub fn extract_table_data(html: &str, table_selector: &str) -> (r: Result<
    Vec<Vec<String>>,
    ExtractError,
>)
    ensures
        r is Ok <==> selector_ok(table_selector@),
        r matches Ok(v) ==> v.deep_view() == table_spec(html@, table_selector@),
        r matches Err(e) ==> (e matches ExtractError::Selector { selector, field } && selector@
            == table_selector@ && field is None),
{
    if !selector_is_valid(table_selector) {
        return Err(ExtractError::Selector { selector: table_selector.to_owned(), field: None });
    }
    if !selector_is_valid("tr") || !selector_is_valid("td, th") {
        let out: Vec<Vec<String>> = Vec::new();
        proof {
            assert(out.deep_view() =~= table_spec(html@, table_selector@));
        }
        return Ok(out);
    }
    let tables = select_in_document(html, table_selector);
    let ghost ts = doc_subtrees(html@, table_selector@);
    let mut out: Vec<Vec<String>> = Vec::new();
    let mut ti: usize = 0;
    proof {
        assert(Seq::<Seq<Seq<char>>>::empty() =~= tables_rows_spec(ts.take(0)));
    }
    while ti < tables.len()
        invariant
            0 <= ti <= tables.len(),
            selector_ok(table_row_selector()),
            selector_ok(table_cell_selector()),
            tables.deep_view() == ts,
            tables.len() == ts.len(),
            out.deep_view() =~= tables_rows_spec(ts.take(ti as int)),
        decreases tables.len() - ti,
    {
        proof {
            assert(tables.deep_view()[ti as int] == tables@[ti as int]@);
        }
        let rows = nested_texts_in_fragment(tables[ti].as_str(), "tr", "td, th");
        let ghost rm = nested_texts(
            ts[ti as int],
            table_row_selector(),
            table_cell_selector(),
        ).map_values(|row: Seq<Seq<Seq<char>>>| row_cells_spec(row));
        let ghost out_before = out.deep_view();
        let mut ri: usize = 0;
        proof {
            assert(out.deep_view() =~= out_before + keep_nonempty(rm.take(0)));
        }
        while ri < rows.len()
            invariant
                0 <= ri <= rows.len(),
                rows.deep_view() == nested_texts(
                    ts[ti as int],
                    table_row_selector(),
                    table_cell_selector(),
                ),
                rows.len() == rm.len(),
                rm == nested_texts(
                    ts[ti as int],
                    table_row_selector(),
                    table_cell_selector(),
                ).map_values(|row: Seq<Seq<Seq<char>>>| row_cells_spec(row)),
                out.deep_view() =~= out_before + keep_nonempty(rm.take(ri as int)),
            decreases rows.len() - ri,
        {
            proof {
                assert(rows.deep_view()[ri as int] == rows@[ri as int].deep_view());
            }
            let row = &rows[ri];
            let mut cells: Vec<String> = Vec::new();
            let mut ci: usize = 0;
            while ci < row.len()
                invariant
                    0 <= ci <= row.len(),
                    *row == rows@[ri as int],
                    rm.len() == rows.len(),
                    0 <= ri < rows.len(),
                    rm == nested_texts(
                        ts[ti as int],
                        table_row_selector(),
                        table_cell_selector(),
                    ).map_values(|row: Seq<Seq<Seq<char>>>| row_cells_spec(row)),
                    rows.deep_view() == nested_texts(
                        ts[ti as int],
                        table_row_selector(),
                        table_cell_selector(),
                    ),
                    cells.deep_view() =~= row_cells_spec(rows@[ri as int].deep_view()).take(
                        ci as int,
                    ),
                decreases row.len() - ci,
            {
                proof {
                    reveal_strlit(" ");
                    assert(" "@ =~= seq![' ']);
                    assert(row.deep_view()[ci as int] == row@[ci as int].deep_view());
                }
                let joined = join_strings(&row[ci], " ");
                let cell = trim_str(joined.as_str());
                cells.push(cell);
                proof {
                    assert(row_cells_spec(rows@[ri as int].deep_view()).take(ci + 1)
                        =~= row_cells_spec(rows@[ri as int].deep_view()).take(ci as int).push(
                        cell_text_spec(row@[ci as int].deep_view()),
                    ));
                }
                ci = ci + 1;
            }
            let ghost cellsv = cells.deep_view();
            let ghost out_pre = out.deep_view();
            proof {
                assert(row_cells_spec(rows@[ri as int].deep_view()).take(row@.len() as int)
                    =~= row_cells_spec(rows@[ri as int].deep_view()));
                assert(rm[ri as int] == row_cells_spec(rows.deep_view()[ri as int]));
                assert(cellsv == rm[ri as int]);
            }
            if cells.len() > 0 {
                out.push(cells);
            }
            proof {
                assert(rm.take(ri + 1).drop_last() =~= rm.take(ri as int));
                assert(keep_nonempty(rm.take(ri + 1).drop_last()) == keep_nonempty(
                    rm.take(ri as int),
                ));
                assert(rm.take(ri + 1).last() == rm[ri as int]);
                if cellsv.len() > 0 {
                    assert(out.deep_view() =~= out_pre.push(cellsv));
                    assert(keep_nonempty(rm.take(ri + 1)) == keep_nonempty(rm.take(ri as int))
                        + seq![rm[ri as int]]);
                    assert(out_pre.push(cellsv) =~= out_before + keep_nonempty(rm.take(ri + 1)));
                } else {
                    assert(keep_nonempty(rm.take(ri + 1)) == keep_nonempty(rm.take(ri as int))
                        + Seq::<Seq<Seq<char>>>::empty());
                    assert(keep_nonempty(rm.take(ri as int)) + Seq::<Seq<Seq<char>>>::empty()
                        =~= keep_nonempty(rm.take(ri as int)));
                }
            }
            ri = ri + 1;
        }
        proof {
            assert(rm.take(rm.len() as int) =~= rm);
            assert(out.deep_view() =~= out_before + table_rows_spec(ts[ti as int]));
            assert(ts.take(ti + 1).drop_last() =~= ts.take(ti as int));
            assert(ts.take(ti + 1).last() == ts[ti as int]);
            assert(tables_rows_spec(ts.take(ti + 1)) == tables_rows_spec(ts.take(ti as int))
                + table_rows_spec(ts[ti as int]));
        }
        ti = ti + 1;
    }
    proof {
        assert(ts.take(ts.len() as int) =~= ts);
    }
    Ok(out)
}

proof fn lemma_keep_nonempty_all(rows: Seq<Seq<Seq<char>>>)
    ensures
        forall|i: int|
            0 <= i < keep_nonempty(rows).len() ==> (#[trigger] keep_nonempty(rows)[i]).len() > 0,
    decreases rows.len(),
{
    if rows.len() > 0 {
        lemma_keep_nonempty_all(rows.drop_last());
        let k = keep_nonempty(rows.drop_last());
        assert forall|i: int| 0 <= i < keep_nonempty(rows).len() implies (#[trigger] keep_nonempty(
            rows,
        )[i]).len() > 0 by {
            if i < k.len() {
                assert(keep_nonempty(rows)[i] == k[i]);
            } else {
                assert(rows.last().len() > 0);
                assert(keep_nonempty(rows)[i] == rows.last());
            }
        }
    }
}

proof fn lemma_tables_rows_all(tables: Seq<Seq<char>>)
    ensures
        forall|i: int|
            0 <= i < tables_rows_spec(tables).len() ==> (#[trigger] tables_rows_spec(
                tables,
            )[i]).len() > 0,
    decreases tables.len(),
{
    if tables.len() > 0 {
        lemma_tables_rows_all(tables.drop_last());
        lemma_keep_nonempty_all(
            nested_texts(tables.last(), table_row_selector(), table_cell_selector()).map_values(
                |row: Seq<Seq<Seq<char>>>| row_cells_spec(row),
            ),
        );
        let front = tables_rows_spec(tables.drop_last());
        let tail = table_rows_spec(tables.last());
        assert forall|i: int| 0 <= i < tables_rows_spec(tables).len() implies (
        #[trigger] tables_rows_spec(tables)[i]).len() > 0 by {
            if i < front.len() {
                assert(tables_rows_spec(tables)[i] == front[i]);
            } else {
                assert(tables_rows_spec(tables)[i] == tail[i - front.len()]);
            }
        }
    }
}

/// Every row that table extraction yields holds at least one cell: rows that
/// yielded zero cells are dropped, never emitted.
pub proof fn lemma_table_rows_nonempty(html: Seq<char>, table_sel: Seq<char>)
    ensures
        forall|i: int|
            0 <= i < table_spec(html, table_sel).len() ==> (#[trigger] table_spec(
                html,
                table_sel,
            )[i]).len() > 0,
{
    if selector_ok(table_row_selector()) && selector_ok(table_cell_selector()) {
        lemma_tables_rows_all(doc_subtrees(html, table_sel));
    }
}

} // verus!
