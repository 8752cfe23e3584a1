//! The two passes of a run over plain values, and what holds of them.
//!
//! The first pass takes the grids out of the document as it was written. The
//! second puts them into the document as the reformatter left it. The
//! invocations are handed in: nothing here asks the grammar provider.

use vstd::prelude::*;
use vstd::string::*;
use crate::config::Config;
use crate::error::Error;
use crate::extractor::{matches_of, spans_of};
use crate::grid::{grid_result, key_rows};
use crate::queue::PendingQueue;
use crate::reformat::{reformat_result, Reformatted};
use crate::span::{invocation_views, Invocation, Match, SyntaxSpan};
use crate::splice::{
    block_end, block_start, indent_for, lemma_blocks_in_place, lemma_passthrough,
    lemma_splice_fixed_point, shows_block, splice, splice_result,
};

verus! {

/// The index of the first of the first `upto` invocations whose grid cannot
/// be built, or `upto` if there is none.
pub open spec fn first_bad_grid(
    text: Seq<char>,
    invocations: Seq<(Match, Seq<SyntaxSpan>)>,
    upto: int,
) -> int
    decreases upto,
{
    if upto <= 0 {
        0
    } else {
        let before = first_bad_grid(text, invocations, upto - 1);
        if before < upto - 1 || grid_result(text, invocations[upto - 1].1) is Err {
            before
        } else {
            upto
        }
    }
}

/// What extracting the grids of `invocations` from `text` gives: the error
/// of the first grid that cannot be built, or the grids in the order of the
/// invocations.
pub open spec fn extract_result(text: Seq<char>, invocations: Seq<(Match, Seq<SyntaxSpan>)>) -> Result<
    Seq<Seq<Seq<Seq<char>>>>,
    Error,
> {
    let n = invocations.len() as int;
    let bad = first_bad_grid(text, invocations, n);
    if bad < n {
        Err(grid_result(text, invocations[bad].1)->Err_0)
    } else {
        Ok(Seq::new(n as nat, |k: int| grid_result(text, invocations[k].1)->Ok_0))
    }
}

/// An invocation whose grid cannot be built, after invocations whose grids
/// all can, is the first such, however many more are looked at.
proof fn lemma_first_bad_grid_found(
    text: Seq<char>,
    invocations: Seq<(Match, Seq<SyntaxSpan>)>,
    k: int,
    upto: int,
)
    requires
        0 <= k < upto,
        first_bad_grid(text, invocations, k) == k,
        grid_result(text, invocations[k].1) is Err,
    ensures
        first_bad_grid(text, invocations, upto) == k,
    decreases upto,
{
    if upto > k + 1 {
        lemma_first_bad_grid_found(text, invocations, k, upto - 1);
    }
}

/// The first pass over plain values: builds the grid of each of
/// `invocations` in `text` and queues them in that order.
pub fn extract(text: &str, invocations: &Vec<Invocation>) -> (r: Result<PendingQueue, Error>)
    ensures
        r matches Ok(queue) ==> extract_result(text@, invocation_views(invocations@)) == Ok::<
            Seq<Seq<Seq<Seq<char>>>>,
            Error,
        >(queue@),
        r matches Err(e) ==> extract_result(text@, invocation_views(invocations@)) == Err::<
            Seq<Seq<Seq<Seq<char>>>>,
            Error,
        >(e),
{
    let ghost views = invocation_views(invocations@);
    let mut queue = PendingQueue::new();
    let mut k: usize = 0;
    while k < invocations.len()
        invariant
            k <= invocations@.len(),
            views == invocation_views(invocations@),
            first_bad_grid(text@, views, k as int) == k,
            queue@.len() == k,
            forall|j: int| 0 <= j < k ==> grid_result(text@, views[j].1) == Ok::<
                Seq<Seq<Seq<char>>>,
                Error,
            >(#[trigger] queue@[j]),
        decreases invocations@.len() - k,
    {
        match key_rows(text, invocations[k].keys.as_slice()) {
            Ok(grid) => {
                queue.push(grid);
            },
            Err(e) => {
                proof {
                    lemma_first_bad_grid_found(text@, views, k as int, views.len() as int);
                }
                return Err(e);
            },
        }
        k += 1;
    }
    assert(queue@ =~= Seq::new(
        views.len(),
        |j: int| grid_result(text@, views[j].1)->Ok_0,
    ));
    Ok(queue)
}

/// What a run without a reformatter gives for `text` with the recognized
/// `invocations`: the grids are extracted and spliced into the same text.
pub open spec fn format_result(
    text: Seq<char>,
    invocations: Seq<(Match, Seq<SyntaxSpan>)>,
    fallback: Seq<char>,
    gap: int,
) -> Result<Seq<char>, Error> {
    match extract_result(text, invocations) {
        Ok(grids) => splice_result(text, spans_of(invocations), grids, fallback, gap),
        Err(e) => Err(e),
    }
}

/// Both passes over plain values, with no reformatter between them.
pub fn format_invocations(text: &str, invocations: &Vec<Invocation>, cfg: &Config) -> (r: Result<
    String,
    Error,
>)
    ensures
        r matches Ok(out) ==> format_result(
            text@,
            invocation_views(invocations@),
            cfg.indent_fallback@,
            cfg.gap_width as int,
        ) == Ok::<Seq<char>, Error>(out@),
        r matches Err(e) ==> format_result(
            text@,
            invocation_views(invocations@),
            cfg.indent_fallback@,
            cfg.gap_width as int,
        ) == Err::<Seq<char>, Error>(e),
{
    let queue = match extract(text, invocations) {
        Ok(queue) => queue,
        Err(e) => {
            return Err(e);
        },
    };
    let calls = matches_of(invocations);
    splice(text, calls.as_slice(), queue, cfg)
}

/// While every grid can be built, none is the first that cannot.
pub proof fn lemma_first_bad_grid(
    text: Seq<char>,
    invocations: Seq<(Match, Seq<SyntaxSpan>)>,
    upto: int,
)
    requires
        0 <= upto,
    ensures
        0 <= first_bad_grid(text, invocations, upto) <= upto,
        first_bad_grid(text, invocations, upto) < upto ==> grid_result(
            text,
            invocations[first_bad_grid(text, invocations, upto)].1,
        ) is Err,
        forall|k: int|
            0 <= k < first_bad_grid(text, invocations, upto) ==> (#[trigger] grid_result(
                text,
                invocations[k].1,
            )) is Ok,
    decreases upto,
{
    if upto > 0 {
        lemma_first_bad_grid(text, invocations, upto - 1);
    }
}

/// Verbatim passthrough. A run on a document in which no layout invocation
/// is found gives the document back, byte for byte.
pub proof fn lemma_format_passthrough(text: Seq<char>, fallback: Seq<char>, gap: int)
    ensures
        format_result(text, Seq::empty(), fallback, gap) == Ok::<Seq<char>, Error>(text),
{
    lemma_passthrough(text, fallback, gap);
}

/// Verbatim passthrough with a reformatter. Where the second document holds
/// no layout invocation and no grid waits, the output is the second
/// document: what the reformatter wrote of the first, or the first itself
/// where the reformatter was not run or could not be found.
pub proof fn lemma_passthrough_reformatted(
    text: Seq<char>,
    how: Reformatted,
    fallback: Seq<char>,
    gap: int,
)
    requires
        !(how is Failed),
    ensures
        reformat_result(text, None, how) is Ok,
        splice_result(
            reformat_result(text, None, how)->Ok_0,
            Seq::<Match>::empty(),
            Seq::empty(),
            fallback,
            gap,
        ) == reformat_result(text, None, how),
        how matches Reformatted::Done(wrote) ==> reformat_result(text, None, how) == Ok::<
            Seq<char>,
            Error,
        >(wrote@),
        !(how is Done) ==> reformat_result(text, None, how) == Ok::<Seq<char>, Error>(text),
{
    lemma_passthrough(reformat_result(text, None, how)->Ok_0, fallback, gap);
}

/// Idempotence. A document in which every layout invocation already reads
/// as the block of the grid of its own arguments is a fixed point: where the
/// run succeeds on it, the output is the document, byte for byte. The
/// output of a run is such a document whenever the grammar provider reads
/// each block back as the arguments that it was rendered from, on the lines
/// on which it shows them.
pub proof fn lemma_format_fixed_point(
    text: Seq<char>,
    invocations: Seq<(Match, Seq<SyntaxSpan>)>,
    fallback: Seq<char>,
    gap: int,
)
    requires
        format_result(text, invocations, fallback, gap) is Ok,
        forall|k: int|
            0 <= k < invocations.len() ==> shows_block(
                text,
                (#[trigger] invocations[k]).0,
                grid_result(text, invocations[k].1)->Ok_0,
                fallback,
                gap,
            ),
    ensures
        format_result(text, invocations, fallback, gap) == Ok::<Seq<char>, Error>(text),
{
    let grids = extract_result(text, invocations)->Ok_0;
    let calls = spans_of(invocations);
    lemma_first_bad_grid(text, invocations, invocations.len() as int);
    assert forall|k: int| 0 <= k < calls.len() implies #[trigger] shows_block(
        text,
        calls[k],
        grids[k],
        fallback,
        gap,
    ) by {
        assert(calls[k] == invocations[k].0);
    }
    lemma_splice_fixed_point(text, calls, grids, fallback, gap);
}

/// Idempotence of a run. Let a run on `text` succeed, and let the grammar
/// provider find in its output the invocations `again`: as many as before,
/// each with its argument list where the run put the block and with the
/// indentation that it had, and each with arguments of which the same grid
/// is built. Then a second run, where it succeeds, gives the output of the
/// first, byte for byte.
pub proof fn lemma_second_run(
    text: Seq<char>,
    invocations: Seq<(Match, Seq<SyntaxSpan>)>,
    again: Seq<(Match, Seq<SyntaxSpan>)>,
    fallback: Seq<char>,
    gap: int,
)
    requires
        format_result(text, invocations, fallback, gap) is Ok,
        again.len() == invocations.len(),
        format_result(format_result(text, invocations, fallback, gap)->Ok_0, again, fallback, gap)
            is Ok,
        forall|k: int|
            0 <= k < again.len() ==> {
                let out = format_result(text, invocations, fallback, gap)->Ok_0;
                let grids = extract_result(text, invocations)->Ok_0;
                let calls = spans_of(invocations);
                &&& (#[trigger] again[k]).0.args.start_byte == block_start(
                    text,
                    calls,
                    grids,
                    fallback,
                    gap,
                    k,
                )
                &&& again[k].0.call.end_byte == block_end(text, calls, grids, fallback, gap, k)
                &&& indent_for(out, again[k].0, fallback) == indent_for(
                    text,
                    invocations[k].0,
                    fallback,
                )
                &&& grid_result(out, again[k].1) == grid_result(text, invocations[k].1)
            },
    ensures
        format_result(format_result(text, invocations, fallback, gap)->Ok_0, again, fallback, gap)
            == format_result(text, invocations, fallback, gap),
{
    let out = format_result(text, invocations, fallback, gap)->Ok_0;
    let grids = extract_result(text, invocations)->Ok_0;
    let calls = spans_of(invocations);
    lemma_first_bad_grid(text, invocations, invocations.len() as int);
    assert forall|k: int| 0 <= k < again.len() implies shows_block(
        out,
        (#[trigger] again[k]).0,
        grid_result(out, again[k].1)->Ok_0,
        fallback,
        gap,
    ) by {
        lemma_blocks_in_place(text, calls, grids, fallback, gap, k);
    }
    lemma_format_fixed_point(out, again, fallback, gap);
}

} // verus!
