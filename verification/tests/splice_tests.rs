use qmkfmt::config::Config;
use qmkfmt::error::Error;
use qmkfmt::grid::Grid;
use qmkfmt::queue::PendingQueue;
use qmkfmt::span::{Match, SyntaxSpan};
use qmkfmt::splice::splice;
use qmkfmt::text::{byte_len, line_indent, replace, slice};

fn span(text: &str, start: usize, end: usize) -> SyntaxSpan {
    let before = &text[..start];
    let line_start = before.rfind('\n').map(|i| i + 1).unwrap_or(0);
    SyntaxSpan {
        start_byte: start,
        end_byte: end,
        start_row: before.matches('\n').count(),
        start_col: start - line_start,
    }
}

/// The spans of the invocation of `name` that starts at or after byte `from`.
fn invocation(text: &str, name: &str, from: usize) -> Match {
    let start = from + text[from..].find(name).unwrap();
    let open = start + name.len();
    assert_eq!(&text[open..open + 1], "(");
    let close = open + text[open..].find(')').unwrap() + 1;
    Match {
        id: span(text, start, open),
        args: span(text, open, close),
        call: span(text, start, close),
    }
}

fn grid(rows: &[&[&str]]) -> Grid {
    Grid::from_rows(rows.iter().map(|r| r.iter().map(|c| c.to_string()).collect()).collect())
        .unwrap()
}

fn queue(grids: Vec<Grid>) -> PendingQueue {
    let mut q = PendingQueue::new();
    for g in grids {
        q.push(g);
    }
    q
}

#[test]
fn grids_leave_the_queue_in_the_order_in_which_they_came() {
    let mut q = PendingQueue::new();
    assert_eq!(q.len(), 0);
    q.push(grid(&[&["A"]]));
    q.push(grid(&[&["B"]]));
    assert_eq!(q.len(), 2);
    assert_eq!(q.pop().unwrap(), grid(&[&["A"]]));
    assert_eq!(q.pop().unwrap(), grid(&[&["B"]]));
    assert_eq!(q.pop(), Err(Error::QueueExhausted));
    assert_eq!(q.len(), 0);
}

#[test]
fn a_document_without_invocations_passes_through() {
    let text = "int main(void) {\n    return 0;\n}\n";
    let out = splice(text, &[], PendingQueue::new(), &Config::default()).unwrap();
    assert_eq!(out, text);
    assert_eq!(splice("", &[], PendingQueue::new(), &Config::default()).unwrap(), "");
}

#[test]
fn a_block_takes_the_place_of_the_argument_list() {
    let text = "    x = LAYOUT(A, B);\n";
    let calls = [invocation(text, "LAYOUT", 0)];
    let out = splice(text, &calls, queue(vec![grid(&[&["A,", "B"]])]), &Config::default());
    assert_eq!(out.unwrap(), "    x = LAYOUT(\n        A, B\n    );\n");
}

#[test]
fn an_unindented_line_gets_the_fallback() {
    let text = "x = LAYOUT(A);";
    let calls = [invocation(text, "LAYOUT", 0)];
    let mut cfg = Config::default();
    cfg.indent_fallback = "\t".to_string();
    let out = splice(text, &calls, queue(vec![grid(&[&["A"]])]), &cfg);
    assert_eq!(out.unwrap(), "x = LAYOUT(\n\t\tA\n\t);");
}

#[test]
fn the_indentation_is_that_of_the_line_of_the_name() {
    let text = "a;\n\t  [0] = LAYOUT(A),\nb;";
    let calls = [invocation(text, "LAYOUT", 0)];
    let out = splice(text, &calls, queue(vec![grid(&[&["A"]])]), &Config::default());
    assert_eq!(out.unwrap(), "a;\n\t  [0] = LAYOUT(\n\t  \t  A\n\t  ),\nb;");
}

#[test]
fn the_grid_comes_from_the_queue_and_not_from_the_text() {
    let text = "LAYOUT(X, Y)";
    let calls = [invocation(text, "LAYOUT", 0)];
    let out = splice(text, &calls, queue(vec![grid(&[&["A,"], &["B"]])]), &Config::default());
    assert_eq!(out.unwrap(), "LAYOUT(\n        A,\n        B\n    )");
}

#[test]
fn three_grids_go_to_three_invocations_in_order() {
    let text = "a LAYOUT(1) b\n  LAYOUT_x(2) c\n\tLAYOUT_y(3) d";
    let first = invocation(text, "LAYOUT", 0);
    let second = invocation(text, "LAYOUT_x", first.call.end_byte);
    let third = invocation(text, "LAYOUT_y", second.call.end_byte);
    let grids = vec![grid(&[&["P"]]), grid(&[&["Q"]]), grid(&[&["R"]])];
    let out = splice(text, &[first, second, third], queue(grids), &Config::default()).unwrap();
    assert_eq!(
        out,
        "a LAYOUT(\n        P\n    ) b\n  LAYOUT_x(\n    Q\n  ) c\n\tLAYOUT_y(\n\t\tR\n\t) d"
    );
}

#[test]
fn the_gap_width_reaches_the_blocks() {
    let text = "LAYOUT(A, B)";
    let calls = [invocation(text, "LAYOUT", 0)];
    let mut cfg = Config::default();
    cfg.gap_width = 3;
    let out = splice(text, &calls, queue(vec![grid(&[&["A,", "B"]])]), &cfg);
    assert_eq!(out.unwrap(), "LAYOUT(\n        A,    B\n    )");
}

#[test]
fn more_invocations_than_grids_exhaust_the_queue() {
    let text = "LAYOUT(A) LAYOUT(B)";
    let first = invocation(text, "LAYOUT", 0);
    let second = invocation(text, "LAYOUT", first.call.end_byte);
    let out = splice(text, &[first, second], queue(vec![grid(&[&["A"]])]), &Config::default());
    assert_eq!(out, Err(Error::QueueExhausted));
    let out = splice(text, &[first], PendingQueue::new(), &Config::default());
    assert_eq!(out, Err(Error::QueueExhausted));
}

#[test]
fn more_grids_than_invocations_are_a_mismatch() {
    let text = "LAYOUT(A)";
    let calls = [invocation(text, "LAYOUT", 0)];
    let grids = vec![grid(&[&["A"]]), grid(&[&["B"]])];
    assert_eq!(splice(text, &calls, queue(grids), &Config::default()), Err(Error::QueueLeftover));
    let grids = vec![grid(&[&["A"]])];
    assert_eq!(splice(text, &[], queue(grids), &Config::default()), Err(Error::QueueLeftover));
}

#[test]
fn an_invocation_inside_another_is_refused() {
    let text = "LAYOUT(LAYOUT(A), B)";
    let outer = Match { id: span(text, 0, 6), args: span(text, 6, 20), call: span(text, 0, 20) };
    let inner = Match { id: span(text, 7, 13), args: span(text, 13, 16), call: span(text, 7, 16) };
    let grids = vec![grid(&[&["X"]]), grid(&[&["A"]])];
    let out = splice(text, &[outer, inner], queue(grids), &Config::default());
    assert_eq!(out, Err(Error::InvalidSpan));
}

#[test]
fn an_invocation_beyond_the_text_is_refused() {
    let text = "LAYOUT(A)";
    let m = Match { id: span(text, 0, 6), args: span(text, 6, 9), call: span(text, 0, 9) };
    let mut far = m;
    far.call.end_byte = 40;
    let out = splice(text, &[far], queue(vec![grid(&[&["A"]])]), &Config::default());
    assert_eq!(out, Err(Error::InvalidSpan));
    let mut far = m;
    far.args.start_byte = 40;
    let out = splice(text, &[far], queue(vec![grid(&[&["A"]])]), &Config::default());
    assert_eq!(out, Err(Error::InvalidSpan));
    let mut far = m;
    far.id.start_byte = 40;
    let out = splice(text, &[far], queue(vec![grid(&[&["A"]])]), &Config::default());
    assert_eq!(out, Err(Error::InvalidSpan));
}

#[test]
fn an_offset_inside_a_character_is_refused() {
    let text = "é LAYOUT(A) é";
    // 'é' takes two bytes: the name starts at 3, the list at 9, the call ends at 12.
    let m = Match { id: span(text, 3, 9), args: span(text, 9, 12), call: span(text, 3, 12) };
    let one = || queue(vec![grid(&[&["A"]])]);
    assert_eq!(
        splice(text, &[m], one(), &Config::default()).unwrap(),
        "é LAYOUT(\n        A\n    ) é"
    );
    let mut bad = m;
    bad.id.start_byte = 1;
    assert_eq!(splice(text, &[bad], one(), &Config::default()), Err(Error::Encoding));
    let mut bad = m;
    bad.call.end_byte = 14;
    assert_eq!(splice(text, &[bad], one(), &Config::default()), Err(Error::Encoding));
    let text = "éLAYOUT(A)";
    let inside = SyntaxSpan { start_byte: 1, end_byte: 11, start_row: 0, start_col: 1 };
    let bad = Match { id: span(text, 2, 8), args: inside, call: span(text, 2, 11) };
    assert_eq!(splice(text, &[bad], one(), &Config::default()), Err(Error::Encoding));
}

#[test]
fn the_span_is_looked_at_before_the_queue() {
    let text = "LAYOUT(A)";
    let mut m = invocation(text, "LAYOUT", 0);
    m.args.start_byte = 40;
    assert_eq!(
        splice(text, &[m], PendingQueue::new(), &Config::default()),
        Err(Error::InvalidSpan)
    );
}

#[test]
fn splicing_a_block_where_it_stands_changes_nothing() {
    let text = "  [0] = LAYOUT(\n    A, B,\n       C\n  ),\n";
    let calls = [invocation(text, "LAYOUT", 0)];
    let out = splice(text, &calls, queue(vec![grid(&[&["A,", "B,"], &["C"]])]), &Config::default());
    assert_eq!(out.unwrap(), text);
}

#[test]
fn a_slice_is_the_text_between_two_offsets() {
    let text = "aé\nb";
    assert_eq!(slice(text, 0, 5), Ok(text));
    assert_eq!(slice(text, 1, 3), Ok("é"));
    assert_eq!(slice(text, 3, 3), Ok(""));
    assert_eq!(slice(text, 2, 3), Err(Error::Encoding));
    assert_eq!(slice(text, 1, 2), Err(Error::Encoding));
    assert_eq!(slice(text, 3, 1), Err(Error::InvalidSpan));
    assert_eq!(slice(text, 3, 6), Err(Error::InvalidSpan));
    assert_eq!(byte_len(text), 5);
    assert_eq!(byte_len(""), 0);
}

#[test]
fn the_indentation_is_the_white_space_that_starts_the_line() {
    let text = "a\n \t x = y;\n\nz\n    ";
    assert_eq!(line_indent(text, 0), Ok(""));
    assert_eq!(line_indent(text, 1), Ok(""));
    assert_eq!(line_indent(text, 5), Ok(" \t "));
    assert_eq!(line_indent(text, 9), Ok(" \t "));
    // Up to the offset only: here it stands within the white space.
    assert_eq!(line_indent(text, 4), Ok(" \t"));
    assert_eq!(line_indent(text, 12), Ok(""));
    assert_eq!(line_indent(text, 13), Ok(""));
    assert_eq!(line_indent(text, byte_len(text)), Ok("    "));
    assert_eq!(line_indent(text, byte_len(text) + 1), Err(Error::InvalidSpan));
}

#[test]
fn white_space_is_what_unicode_says() {
    // A no-break space and an ideographic space indent; a letter does not.
    let text = "\u{a0}\u{3000}x = 1";
    assert_eq!(line_indent(text, 5), Ok("\u{a0}\u{3000}"));
    assert_eq!(line_indent(text, 6), Ok("\u{a0}\u{3000}"));
    assert_eq!(line_indent(text, 3), Err(Error::Encoding));
    assert_eq!(line_indent("é = 1", 2), Ok(""));
    assert_eq!(line_indent("x\r\n\ty", 4), Ok("\t"));
}

#[test]
fn a_part_of_a_text_is_replaced() {
    assert_eq!(replace("abcdef", 2, 4, "XYZ"), Ok("abXYZef".to_string()));
    assert_eq!(replace("abcdef", 0, 6, ""), Ok("".to_string()));
    assert_eq!(replace("abcdef", 3, 3, "-"), Ok("abc-def".to_string()));
    assert_eq!(replace("aéb", 1, 3, "e"), Ok("aeb".to_string()));
    assert_eq!(replace("aéb", 2, 3, "e"), Err(Error::Encoding));
    assert_eq!(replace("abc", 2, 1, "e"), Err(Error::InvalidSpan));
    assert_eq!(replace("abc", 2, 7, "e"), Err(Error::InvalidSpan));
}
