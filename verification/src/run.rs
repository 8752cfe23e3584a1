//! A run: the state machine that leads a document through the first pass,
//! the reformatter and the second pass.
//!
//! Each step asks the grammar provider about the document at hand. What the
//! provider answers has a name, so each contract says exactly what the step
//! returns: what the passes over plain values make of the provider's answer.

use vstd::prelude::*;
use vstd::string::*;
use crate::anchor::{confine, declarations_of, in_scope, locate_anchor};
use crate::config::{Config, Reformatter};
use crate::engine::{
    extract, extract_result, format_invocations, format_result, lemma_second_run,
};
use crate::error::Error;
use crate::extractor::{matches_of, recognize, recognized, spans_of};
use crate::grammar::{capture_numbers_result, declarations_in, invocations_in, Grammar};
use crate::queue::PendingQueue;
use crate::reformat::{
    reformat_result, reformatted_text, reformatter_input, text_to_reformat, wants_reformatter,
    Reformatted,
};
use crate::span::{invocation_views, Invocation, Match, SyntaxSpan};
use crate::grid::grid_result;
use crate::splice::{block_end, block_start, indent_for, splice, splice_result};
use crate::text::span_error;

verus! {

/// What a pass finds in a document: the layout invocations that the run
/// deals with, and the region to which it is confined, if any.
pub struct Survey {
    pub invocations: Vec<Invocation>,
    pub region: Option<SyntaxSpan>,
}

/// The region to which `cfg` confines the run on `text`: none where it
/// names no anchor; else the extent of the one top-level declaration of
/// `text` that declares the anchor's name. Where the provider fails, or no
/// declaration or more than one declares the name, there is none to give.
pub open spec fn region_result(text: Seq<char>, cfg: &Config) -> Result<Option<SyntaxSpan>, Error> {
    match cfg.anchor_name {
        None => Ok(None),
        Some(name) => match declarations_in(text) {
            Err(e) => Err(e),
            Ok(declarations) => {
                let named = declarations_of(text, declarations, name@);
                if named.len() == 1 {
                    Ok(Some(named[0].span))
                } else {
                    Err(Error::AnchorNotFound)
                }
            },
        },
    }
}

/// The region to which `cfg` confines the run on `text`.
pub fn find_region(grammar: &Grammar, text: &str, cfg: &Config) -> (r: Result<
    Option<SyntaxSpan>,
    Error,
>)
    ensures
        r == region_result(text@, cfg),
{
    match &cfg.anchor_name {
        None => Ok(None),
        Some(name) => {
            let declarations = match grammar.declarations(text) {
                Ok(declarations) => declarations,
                Err(e) => {
                    return Err(e);
                },
            };
            match locate_anchor(text, declarations.as_slice(), name.as_str()) {
                Ok(span) => Ok(Some(span)),
                Err(e) => Err(e),
            }
        },
    }
}

/// What a look at `text` finds: the invocations of `text` that the name
/// prefix of `cfg` admits and that lie within the region of the run, and
/// that region. A failure of the provider comes first, then that of the
/// search for the anchor.
pub open spec fn survey_result(text: Seq<char>, cfg: &Config) -> Result<
    (Seq<(Match, Seq<SyntaxSpan>)>, Option<SyntaxSpan>),
    Error,
> {
    match invocations_in(text) {
        Err(e) => Err(e),
        Ok(candidates) => match region_result(text, cfg) {
            Err(e) => Err(e),
            Ok(region) => Ok(
                (in_scope(recognized(text, candidates, cfg.name_prefix@), region), region),
            ),
        },
    }
}

/// Looks at `text`: finds the region of the run, and the layout
/// invocations that the run deals with. A document without any is in order.
pub fn survey(grammar: &Grammar, text: &str, cfg: &Config) -> (r: Result<Survey, Error>)
    ensures
        r matches Ok(found) ==> survey_result(text@, cfg) == Ok::<
            (Seq<(Match, Seq<SyntaxSpan>)>, Option<SyntaxSpan>),
            Error,
        >((invocation_views(found.invocations@), found.region)),
        r matches Err(e) ==> survey_result(text@, cfg) == Err::<
            (Seq<(Match, Seq<SyntaxSpan>)>, Option<SyntaxSpan>),
            Error,
        >(e),
{
    let candidates = match grammar.invocations(text) {
        Ok(candidates) => candidates,
        Err(e) => {
            return Err(e);
        },
    };
    let found = match recognize(text, candidates, cfg.name_prefix.as_str()) {
        Ok(found) => found,
        Err(_) => Vec::new(),
    };
    assert(invocation_views(found@) =~= recognized(
        text@,
        invocations_in(text@)->Ok_0,
        cfg.name_prefix@,
    ));
    let region = match find_region(grammar, text, cfg) {
        Ok(region) => region,
        Err(e) => {
            return Err(e);
        },
    };
    let invocations = match &region {
        Some(span) => confine(found, span),
        None => found,
    };
    Ok(Survey { invocations, region })
}

/// What a result holds, as the contracts speak of it.
pub open spec fn outcome(r: Result<String, Error>) -> Result<Seq<char>, Error> {
    match r {
        Ok(out) => Ok(out@),
        Err(e) => Err(e),
    }
}

/// A run between its passes: the document of the first pass, the region to
/// which the run is confined, and the grids that wait for the second.
pub struct Run<'a> {
    pub text: &'a str,
    pub cfg: &'a Config,
    pub region: Option<SyntaxSpan>,
    pub queue: PendingQueue,
}

/// What is to be done between the passes.
pub enum Action<'a> {
    /// Hand this text to the reformatter, and the outcome to the second pass.
    Reformat(&'a str),
    /// Go on to the second pass; the reformatter is switched off.
    Proceed,
}

/// What the first pass on `text` gives: the grids of the layout
/// invocations that the run deals with, in document order, and the region of
/// the run; or the first failure, of the look at the text or of the
/// extraction.
pub open spec fn first_pass_result(text: Seq<char>, cfg: &Config) -> Result<
    (Seq<Seq<Seq<Seq<char>>>>, Option<SyntaxSpan>),
    Error,
> {
    match survey_result(text, cfg) {
        Err(e) => Err(e),
        Ok((invocations, region)) => match extract_result(text, invocations) {
            Err(e) => Err(e),
            Ok(grids) => Ok((grids, region)),
        },
    }
}

/// The first pass: extracts the grids of the layout invocations of `text`,
/// in document order.
pub fn first_pass<'a>(grammar: &Grammar, text: &'a str, cfg: &'a Config) -> (r: Result<
    Run<'a>,
    Error,
>)
    ensures
        r matches Ok(run) ==> {
            &&& run.text@ == text@
            &&& run.cfg == cfg
            &&& first_pass_result(text@, cfg) == Ok::<
                (Seq<Seq<Seq<Seq<char>>>>, Option<SyntaxSpan>),
                Error,
            >((run.queue@, run.region))
        },
        r matches Err(e) ==> first_pass_result(text@, cfg) == Err::<
            (Seq<Seq<Seq<Seq<char>>>>, Option<SyntaxSpan>),
            Error,
        >(e),
{
    let found = match survey(grammar, text, cfg) {
        Ok(found) => found,
        Err(e) => {
            return Err(e);
        },
    };
    match extract(text, &found.invocations) {
        Ok(queue) => Ok(Run { text, cfg, region: found.region, queue }),
        Err(e) => Err(e),
    }
}

impl<'a> Run<'a> {
    /// What is to be done before the second pass: nothing, where the
    /// reformatter is switched off; else to reformat the region of the run,
    /// or the whole document where there is none.
    pub fn next_action(&self) -> (r: Result<Action<'a>, Error>)
        ensures
            self.cfg.reformatter == Reformatter::Disabled ==> r matches Ok(Action::Proceed),
            self.cfg.reformatter == Reformatter::Enabled ==> match self.region {
                Some(span) if !span.is_text(self.text@) => r matches Err(e) && e == span_error(
                    self.text@,
                    span.start_byte as int,
                    span.end_byte as int,
                ),
                _ => r matches Ok(Action::Reformat(part)) && part@ == reformatter_input(
                    self.text@,
                    self.region,
                ),
            },
    {
        if !wants_reformatter(self.cfg) {
            return Ok(Action::Proceed);
        }
        match text_to_reformat(self.text, &self.region) {
            Ok(part) => Ok(Action::Reformat(part)),
            Err(e) => Err(e),
        }
    }
}

/// What the second pass gives: the document that the reformatter left of
/// `first`, as [`reformat_result`] says, with the grids of `queue` in place
/// of the argument lists of the layout invocations that a look at that
/// document finds; or the first failure, of the reformatter, of the look or
/// of the splice.
pub open spec fn second_pass_result(
    first: Seq<char>,
    region: Option<SyntaxSpan>,
    how: Reformatted,
    queue: Seq<Seq<Seq<Seq<char>>>>,
    cfg: &Config,
) -> Result<Seq<char>, Error> {
    match reformat_result(first, region, how) {
        Err(e) => Err(e),
        Ok(text) => match survey_result(text, cfg) {
            Err(e) => Err(e),
            Ok((invocations, _)) => splice_result(
                text,
                spans_of(invocations),
                queue,
                cfg.indent_fallback@,
                cfg.gap_width as int,
            ),
        },
    }
}

/// The second pass: takes the document that the reformatter left and puts
/// the grids of `run` in place of the argument lists of its layout
/// invocations.
pub fn second_pass(grammar: &Grammar, run: Run<'_>, how: Reformatted) -> (r: Result<String, Error>)
    ensures
        outcome(r) == second_pass_result(run.text@, run.region, how, run.queue@, run.cfg),
{
    let Run { text, cfg, region, queue } = run;
    let text = match reformatted_text(text, &region, how) {
        Ok(text) => text,
        Err(e) => {
            return Err(e);
        },
    };
    let found = match survey(grammar, text.as_str(), cfg) {
        Ok(found) => found,
        Err(e) => {
            return Err(e);
        },
    };
    let calls = matches_of(&found.invocations);
    splice(text.as_str(), calls.as_slice(), queue, cfg)
}

/// What a whole run without a reformatter gives for `text`: the failure of
/// the provider to be set up, or of the look at the text; else what
/// [`format_result`] says for the layout invocations that the look finds.
pub open spec fn render_result(text: Seq<char>, cfg: &Config) -> Result<Seq<char>, Error> {
    match capture_numbers_result() {
        Err(e) => Err(e),
        Ok(_) => match survey_result(text, cfg) {
            Err(e) => Err(e),
            Ok((invocations, _)) => format_result(
                text,
                invocations,
                cfg.indent_fallback@,
                cfg.gap_width as int,
            ),
        },
    }
}

/// A whole run without a reformatter: `text` with the argument list of
/// every layout invocation rendered as an aligned table.
pub fn render(text: &str, cfg: &Config) -> (r: Result<String, Error>)
    ensures
        outcome(r) == render_result(text@, cfg),
{
    let grammar = match Grammar::new() {
        Ok(grammar) => grammar,
        Err(e) => {
            return Err(e);
        },
    };
    let found = match survey(&grammar, text, cfg) {
        Ok(found) => found,
        Err(e) => {
            return Err(e);
        },
    };
    format_invocations(text, &found.invocations, cfg)
}

/// The provider reads the output `out` of a run on `text` back as it was
/// written: a look at `out` finds as many layout invocations as the look at
/// `text` found, each with its argument list where the run put the block,
/// indented as the invocation was, and with arguments of which the same grid
/// is built.
pub open spec fn reads_back(text: Seq<char>, out: Seq<char>, cfg: &Config) -> bool {
    &&& survey_result(text, cfg) is Ok
    &&& survey_result(out, cfg) is Ok
    &&& {
        let first = survey_result(text, cfg)->Ok_0.0;
        let again = survey_result(out, cfg)->Ok_0.0;
        let grids = extract_result(text, first)->Ok_0;
        let fallback = cfg.indent_fallback@;
        let gap = cfg.gap_width as int;
        &&& again.len() == first.len()
        &&& forall|k: int|
            0 <= k < again.len() ==> {
                &&& (#[trigger] again[k]).0.args.start_byte == block_start(
                    text,
                    spans_of(first),
                    grids,
                    fallback,
                    gap,
                    k,
                )
                &&& again[k].0.call.end_byte == block_end(
                    text,
                    spans_of(first),
                    grids,
                    fallback,
                    gap,
                    k,
                )
                &&& indent_for(out, again[k].0, fallback) == indent_for(text, first[k].0, fallback)
                &&& grid_result(out, again[k].1) == grid_result(text, first[k].1)
            }
    }
}

/// Idempotence of a run. Where a run on `text` succeeds, the provider reads
/// its output back as it was written, and a second run on the output
/// succeeds, the second run gives the output of the first, byte for byte.
pub proof fn lemma_render_twice(text: Seq<char>, cfg: &Config)
    requires
        render_result(text, cfg) is Ok,
        render_result(render_result(text, cfg)->Ok_0, cfg) is Ok,
        reads_back(text, render_result(text, cfg)->Ok_0, cfg),
    ensures
        render_result(render_result(text, cfg)->Ok_0, cfg) == render_result(text, cfg),
{
    let out = render_result(text, cfg)->Ok_0;
    let first = survey_result(text, cfg)->Ok_0.0;
    let again = survey_result(out, cfg)->Ok_0.0;
    lemma_second_run(text, first, again, cfg.indent_fallback@, cfg.gap_width as int);
}

} // verus!
