//! Putting rendered grids back into a document.
//!
//! The grids were extracted from one text; the invocations are those of
//! another, which an outside formatter may have made of the first. The two
//! are matched by their order alone: the first grid goes to the first
//! invocation, the second to the second, and the counts must agree.
//!
//! This is a known limit. A formatter that changes which invocation is
//! which, and keeps their number, is not noticed: the names of the
//! invocations are not compared.

use vstd::prelude::*;
use vstd::string::*;
use crate::config::Config;
use crate::error::Error;
use crate::queue::PendingQueue;
use crate::render::{render_block, render_grid};
use crate::span::Match;
use crate::text::{
    byte_count, byte_len, byte_slice, bytes_of, indent_at, is_text_range,
    lemma_bytes_of_concat, lemma_slice_of_concat, lemma_slices_join, lemma_whole_text,
    line_indent, slice, span_error,
};

verus! {

/// The offset up to which the document is dealt with when the first `k`
/// invocations are: the end of the one before, or the start of the document.
pub open spec fn cursor(calls: Seq<Match>, k: int) -> int {
    if k <= 0 {
        0
    } else {
        calls[k - 1].call.end_byte as int
    }
}

/// The indentation with which the block of invocation `m` is rendered: that
/// of the line on which its name starts, or `fallback` if the line has none.
pub open spec fn indent_for(text: Seq<char>, m: Match, fallback: Seq<char>) -> Seq<char> {
    let found = indent_at(text, m.id.start_byte as int);
    if found.len() == 0 {
        fallback
    } else {
        found
    }
}

/// Why invocation `k` cannot be dealt with when `queued` grids were
/// extracted, if it cannot: the text between the invocation before and its
/// argument list is no text range; or no grid is left for it; or the text up
/// to its name is no text range.
pub open spec fn call_error(text: Seq<char>, calls: Seq<Match>, queued: int, k: int) -> Option<
    Error,
> {
    let m = calls[k];
    if !is_text_range(text, cursor(calls, k), m.args.start_byte as int) {
        Some(span_error(text, cursor(calls, k), m.args.start_byte as int))
    } else if k >= queued {
        Some(Error::QueueExhausted)
    } else if !is_text_range(text, 0, m.id.start_byte as int) {
        Some(span_error(text, 0, m.id.start_byte as int))
    } else {
        None
    }
}

/// The index of the first of the first `upto` invocations that cannot be
/// dealt with, or `upto` if all can.
pub open spec fn first_failing(text: Seq<char>, calls: Seq<Match>, queued: int, upto: int) -> int
    decreases upto,
{
    if upto <= 0 {
        0
    } else {
        let before = first_failing(text, calls, queued, upto - 1);
        if before < upto - 1 || call_error(text, calls, queued, upto - 1) is Some {
            before
        } else {
            upto
        }
    }
}

/// The output up to the end of invocation `upto - 1`: for each invocation in
/// turn, the text since the one before, as it stands, and then the block of
/// the grid with the invocation's number.
pub open spec fn spliced(
    text: Seq<char>,
    calls: Seq<Match>,
    grids: Seq<Seq<Seq<Seq<char>>>>,
    fallback: Seq<char>,
    gap: int,
    upto: int,
) -> Seq<char>
    decreases upto,
{
    if upto <= 0 {
        Seq::empty()
    } else {
        let m = calls[upto - 1];
        spliced(text, calls, grids, fallback, gap, upto - 1) + byte_slice(
            text,
            cursor(calls, upto - 1),
            m.args.start_byte as int,
        ) + render_block(grids[upto - 1], indent_for(text, m, fallback), gap)
    }
}

/// What splicing `grids` into `text` at `calls` gives: the error of the
/// first invocation that cannot be dealt with; else that of the text after
/// the last invocation, if it is no text range; else that of grids left
/// over; else the output, which ends with that text as it stands.
pub open spec fn splice_result(
    text: Seq<char>,
    calls: Seq<Match>,
    grids: Seq<Seq<Seq<Seq<char>>>>,
    fallback: Seq<char>,
    gap: int,
) -> Result<Seq<char>, Error> {
    let n = calls.len() as int;
    let queued = grids.len() as int;
    let end = bytes_of(text).len() as int;
    let failing = first_failing(text, calls, queued, n);
    if failing < n {
        Err(call_error(text, calls, queued, failing)->0)
    } else if !is_text_range(text, cursor(calls, n), end) {
        Err(span_error(text, cursor(calls, n), end))
    } else if queued > n {
        Err(Error::QueueLeftover)
    } else {
        Ok(spliced(text, calls, grids, fallback, gap, n) + byte_slice(text, cursor(calls, n), end))
    }
}

/// Replaces the argument list and closing parenthesis of each of `calls` in
/// `text` by the block of the grid that `queue` holds for it, and copies
/// everything else.
pub fn splice(text: &str, calls: &[Match], queue: PendingQueue, cfg: &Config) -> (r: Result<
    String,
    Error,
>)
    ensures
        r matches Ok(out) ==> splice_result(
            text@,
            calls@,
            queue@,
            cfg.indent_fallback@,
            cfg.gap_width as int,
        ) == Ok::<Seq<char>, Error>(out@),
        r matches Err(e) ==> splice_result(
            text@,
            calls@,
            queue@,
            cfg.indent_fallback@,
            cfg.gap_width as int,
        ) == Err::<Seq<char>, Error>(e),
{
    let ghost grids = queue@;
    let ghost fallback = cfg.indent_fallback@;
    let ghost gap = cfg.gap_width as int;
    let mut pending = queue;
    let mut out = String::new();
    let mut last: usize = 0;
    let mut k: usize = 0;
    while k < calls.len()
        invariant
            k <= calls@.len(),
            grids == queue@,
            grids.len() >= k,
            fallback == cfg.indent_fallback@,
            gap == cfg.gap_width as int,
            last == cursor(calls@, k as int),
            pending@ == grids.skip(k as int),
            first_failing(text@, calls@, grids.len() as int, k as int) == k,
            out@ == spliced(text@, calls@, grids, fallback, gap, k as int),
        decreases calls@.len() - k,
    {
        let m = &calls[k];
        proof {
            if call_error(text@, calls@, grids.len() as int, k as int) is Some {
                lemma_first_failing_found(
                    text@,
                    calls@,
                    grids.len() as int,
                    k as int,
                    calls@.len() as int,
                );
            }
        }
        let between = match slice(text, last, m.args.start_byte) {
            Ok(s) => s,
            Err(e) => {
                return Err(e);
            },
        };
        let grid = match pending.pop() {
            Ok(grid) => grid,
            Err(e) => {
                return Err(e);
            },
        };
        let found = match line_indent(text, m.id.start_byte) {
            Ok(s) => s,
            Err(e) => {
                return Err(e);
            },
        };
        let indent = if found.is_empty() {
            cfg.indent_fallback.as_str()
        } else {
            found
        };
        let block = render_grid(&grid, indent, cfg.gap_width);
        out.append(between);
        out.append(block.as_str());
        last = m.call.end_byte;
        k += 1;
    }
    let rest = match slice(text, last, byte_len(text)) {
        Ok(s) => s,
        Err(e) => {
            return Err(e);
        },
    };
    if pending.len() > 0 {
        return Err(Error::QueueLeftover);
    }
    out.append(rest);
    Ok(out)
}

/// An invocation that cannot be dealt with, after invocations that all
/// can, is the first that cannot, however many more are looked at.
proof fn lemma_first_failing_found(
    text: Seq<char>,
    calls: Seq<Match>,
    queued: int,
    k: int,
    upto: int,
)
    requires
        0 <= k < upto,
        first_failing(text, calls, queued, k) == k,
        call_error(text, calls, queued, k) is Some,
    ensures
        first_failing(text, calls, queued, upto) == k,
    decreases upto,
{
    if upto > k + 1 {
        lemma_first_failing_found(text, calls, queued, k, upto - 1);
    }
}

/// While every invocation can be dealt with, none is the first that cannot.
proof fn lemma_first_failing_none(
    text: Seq<char>,
    calls: Seq<Match>,
    queued: int,
    upto: int,
)
    requires
        0 <= upto,
        forall|k: int| 0 <= k < upto ==> call_error(text, calls, queued, k) is None,
    ensures
        first_failing(text, calls, queued, upto) == upto,
    decreases upto,
{
    if upto > 0 {
        lemma_first_failing_none(text, calls, queued, upto - 1);
    }
}

/// The first invocation that cannot be dealt with is one that cannot, and
/// those before it can.
pub proof fn lemma_first_failing(text: Seq<char>, calls: Seq<Match>, queued: int, upto: int)
    requires
        0 <= upto,
    ensures
        0 <= first_failing(text, calls, queued, upto) <= upto,
        first_failing(text, calls, queued, upto) < upto ==> call_error(
            text,
            calls,
            queued,
            first_failing(text, calls, queued, upto),
        ) is Some,
        forall|k: int|
            0 <= k < first_failing(text, calls, queued, upto) ==> call_error(
                text,
                calls,
                queued,
                k,
            ) is None,
    decreases upto,
{
    if upto > 0 {
        lemma_first_failing(text, calls, queued, upto - 1);
    }
}

/// When splicing succeeds. It does exactly when there are as many grids as
/// invocations, the text between one invocation and the argument list of the
/// next is a text range, as is the text up to each name, and the text after
/// the last invocation is one too.
pub proof fn lemma_splice_succeeds(
    text: Seq<char>,
    calls: Seq<Match>,
    grids: Seq<Seq<Seq<Seq<char>>>>,
    fallback: Seq<char>,
    gap: int,
)
    ensures
        splice_result(text, calls, grids, fallback, gap) is Ok <==> {
            &&& grids.len() == calls.len()
            &&& forall|k: int|
                0 <= k < calls.len() ==> #[trigger] is_text_range(
                    text,
                    cursor(calls, k),
                    calls[k].args.start_byte as int,
                )
            &&& forall|k: int|
                0 <= k < calls.len() ==> is_text_range(text, 0, #[trigger] calls[k].id.start_byte as int)
            &&& is_text_range(text, cursor(calls, calls.len() as int), bytes_of(text).len() as int)
        },
{
    let n = calls.len() as int;
    let queued = grids.len() as int;
    lemma_first_failing(text, calls, queued, n);
    if splice_result(text, calls, grids, fallback, gap) is Ok {
        assert forall|k: int| 0 <= k < n implies #[trigger] is_text_range(
            text,
            cursor(calls, k),
            calls[k].args.start_byte as int,
        ) by {
            assert(call_error(text, calls, queued, k) is None);
        }
        assert forall|k: int| 0 <= k < n implies is_text_range(
            text,
            0,
            #[trigger] calls[k].id.start_byte as int,
        ) by {
            assert(call_error(text, calls, queued, k) is None);
        }
    }
    if grids.len() == calls.len() && (forall|k: int|
        0 <= k < calls.len() ==> #[trigger] is_text_range(
            text,
            cursor(calls, k),
            calls[k].args.start_byte as int,
        )) && (forall|k: int|
        0 <= k < calls.len() ==> is_text_range(text, 0, #[trigger] calls[k].id.start_byte as int)) {
        assert forall|k: int| 0 <= k < n implies call_error(text, calls, queued, k) is None by {
            assert(is_text_range(text, cursor(calls, k), calls[k].args.start_byte as int));
        }
        lemma_first_failing_none(text, calls, queued, n);
    }
}

/// Verbatim passthrough. A document without invocations, spliced with no
/// grids, comes out as it went in.
pub proof fn lemma_passthrough(text: Seq<char>, fallback: Seq<char>, gap: int)
    ensures
        splice_result(text, Seq::<Match>::empty(), Seq::empty(), fallback, gap) == Ok::<
            Seq<char>,
            Error,
        >(text),
{
    lemma_whole_text(text);
}

/// Invocation `m` shows in `text` the block of `grid`: its argument list,
/// up to the end of the invocation, reads as the grid is rendered for it.
pub open spec fn shows_block(
    text: Seq<char>,
    m: Match,
    grid: Seq<Seq<Seq<char>>>,
    fallback: Seq<char>,
    gap: int,
) -> bool {
    &&& is_text_range(text, m.args.start_byte as int, m.call.end_byte as int)
    &&& byte_slice(text, m.args.start_byte as int, m.call.end_byte as int) == render_block(
        grid,
        indent_for(text, m, fallback),
        gap,
    )
}

/// Where every invocation up to `upto` shows the block of its grid, the
/// output up to there is the document up to there.
proof fn lemma_spliced_unchanged(
    text: Seq<char>,
    calls: Seq<Match>,
    grids: Seq<Seq<Seq<Seq<char>>>>,
    fallback: Seq<char>,
    gap: int,
    upto: int,
)
    requires
        0 <= upto <= calls.len(),
        upto <= grids.len(),
        forall|k: int|
            0 <= k < upto ==> #[trigger] is_text_range(
                text,
                cursor(calls, k),
                calls[k].args.start_byte as int,
            ),
        forall|k: int|
            0 <= k < upto ==> #[trigger] shows_block(text, calls[k], grids[k], fallback, gap),
    ensures
        is_text_range(text, 0, cursor(calls, upto)),
        spliced(text, calls, grids, fallback, gap, upto) == byte_slice(text, 0, cursor(calls, upto)),
    decreases upto,
{
    if upto == 0 {
        lemma_whole_text(text);
    } else {
        let m = calls[upto - 1];
        lemma_spliced_unchanged(text, calls, grids, fallback, gap, upto - 1);
        assert(shows_block(text, m, grids[upto - 1], fallback, gap));
        lemma_slices_join(text, 0, cursor(calls, upto - 1), m.args.start_byte as int);
        lemma_slices_join(text, 0, m.args.start_byte as int, m.call.end_byte as int);
    }
}

/// Idempotence of splicing. Where every invocation of a document already
/// shows the block of its grid, splicing the grids in gives the document
/// back, byte for byte.
pub proof fn lemma_splice_fixed_point(
    text: Seq<char>,
    calls: Seq<Match>,
    grids: Seq<Seq<Seq<Seq<char>>>>,
    fallback: Seq<char>,
    gap: int,
)
    requires
        splice_result(text, calls, grids, fallback, gap) is Ok,
        forall|k: int|
            0 <= k < calls.len() ==> #[trigger] shows_block(text, calls[k], grids[k], fallback, gap),
    ensures
        splice_result(text, calls, grids, fallback, gap) == Ok::<Seq<char>, Error>(text),
{
    let n = calls.len() as int;
    let end = bytes_of(text).len() as int;
    lemma_splice_succeeds(text, calls, grids, fallback, gap);
    lemma_spliced_unchanged(text, calls, grids, fallback, gap, n);
    lemma_slices_join(text, 0, cursor(calls, n), end);
    lemma_whole_text(text);
}

/// Ordinal reconciliation for three invocations. Where three grids are
/// spliced into a document with three invocations, the output is the text
/// before the first argument list, the block of the first grid, the text
/// between the first invocation and the second argument list, the block of
/// the second grid, and so on to the text after the third invocation: each
/// grid stands where the invocation of its number stood, whatever the text
/// around them is.
pub proof fn lemma_splice_three(
    text: Seq<char>,
    calls: Seq<Match>,
    grids: Seq<Seq<Seq<Seq<char>>>>,
    fallback: Seq<char>,
    gap: int,
)
    requires
        calls.len() == 3,
        splice_result(text, calls, grids, fallback, gap) is Ok,
    ensures
        grids.len() == 3,
        splice_result(text, calls, grids, fallback, gap) == Ok::<Seq<char>, Error>(
            byte_slice(text, 0, calls[0].args.start_byte as int) + render_block(
                grids[0],
                indent_for(text, calls[0], fallback),
                gap,
            ) + byte_slice(text, calls[0].call.end_byte as int, calls[1].args.start_byte as int)
                + render_block(grids[1], indent_for(text, calls[1], fallback), gap) + byte_slice(
                text,
                calls[1].call.end_byte as int,
                calls[2].args.start_byte as int,
            ) + render_block(grids[2], indent_for(text, calls[2], fallback), gap) + byte_slice(
                text,
                calls[2].call.end_byte as int,
                bytes_of(text).len() as int,
            ),
        ),
{
    lemma_splice_succeeds(text, calls, grids, fallback, gap);
    reveal_with_fuel(spliced, 4);
}

/// The offset in the output at which the block of invocation `k` starts.
pub open spec fn block_start(
    text: Seq<char>,
    calls: Seq<Match>,
    grids: Seq<Seq<Seq<Seq<char>>>>,
    fallback: Seq<char>,
    gap: int,
    k: int,
) -> int {
    byte_count(
        spliced(text, calls, grids, fallback, gap, k) + byte_slice(
            text,
            cursor(calls, k),
            calls[k].args.start_byte as int,
        ),
    )
}

/// The offset in the output at which the block of invocation `k` ends.
pub open spec fn block_end(
    text: Seq<char>,
    calls: Seq<Match>,
    grids: Seq<Seq<Seq<Seq<char>>>>,
    fallback: Seq<char>,
    gap: int,
    k: int,
) -> int {
    byte_count(spliced(text, calls, grids, fallback, gap, k + 1))
}

/// The output up to one invocation begins the output up to any later one.
proof fn lemma_spliced_prefix(
    text: Seq<char>,
    calls: Seq<Match>,
    grids: Seq<Seq<Seq<Seq<char>>>>,
    fallback: Seq<char>,
    gap: int,
    k: int,
    upto: int,
)
    requires
        0 <= k <= upto,
    ensures
        spliced(text, calls, grids, fallback, gap, k).is_prefix_of(
            spliced(text, calls, grids, fallback, gap, upto),
        ),
    decreases upto - k,
{
    if k < upto {
        lemma_spliced_prefix(text, calls, grids, fallback, gap, k, upto - 1);
    }
}

/// Ordinal reconciliation. In the output of a splice that succeeds, the
/// block of grid `k` stands where invocation `k` had its argument list:
/// after the output for the invocations before it and the text that led up
/// to the list. The blocks follow one another in the order of the grids,
/// whatever the text around the invocations is.
pub proof fn lemma_blocks_in_place(
    text: Seq<char>,
    calls: Seq<Match>,
    grids: Seq<Seq<Seq<Seq<char>>>>,
    fallback: Seq<char>,
    gap: int,
    k: int,
)
    requires
        splice_result(text, calls, grids, fallback, gap) is Ok,
        0 <= k < calls.len(),
    ensures
        ({
            let out = splice_result(text, calls, grids, fallback, gap)->Ok_0;
            let from = block_start(text, calls, grids, fallback, gap, k);
            let to = block_end(text, calls, grids, fallback, gap, k);
            &&& is_text_range(out, from, to)
            &&& byte_slice(out, from, to) == render_block(
                grids[k],
                indent_for(text, calls[k], fallback),
                gap,
            )
            &&& k + 1 < calls.len() ==> to <= block_start(text, calls, grids, fallback, gap, k + 1)
        }),
{
    let n = calls.len() as int;
    let out = splice_result(text, calls, grids, fallback, gap)->Ok_0;
    let rest = byte_slice(text, cursor(calls, n), bytes_of(text).len() as int);
    let before = spliced(text, calls, grids, fallback, gap, k) + byte_slice(
        text,
        cursor(calls, k),
        calls[k].args.start_byte as int,
    );
    let block = render_block(grids[k], indent_for(text, calls[k], fallback), gap);
    let upto = spliced(text, calls, grids, fallback, gap, k + 1);
    let all = spliced(text, calls, grids, fallback, gap, n);
    lemma_spliced_prefix(text, calls, grids, fallback, gap, k + 1, n);
    let after = all.skip(upto.len() as int) + rest;
    assert(out =~= before + block + after);
    lemma_slice_of_concat(before, block, after);
    lemma_bytes_of_concat(before, block);
    if k + 1 < n {
        lemma_bytes_of_concat(
            upto,
            byte_slice(text, cursor(calls, k + 1), calls[k + 1].args.start_byte as int),
        );
    }
}

} // verus!
